//! The query SQL generator: one UNION-ALL SELECT per entity graph, one arm
//! per node of the schema tree, with the column-offset bookkeeping the
//! materializer needs and a fixed ORDER BY over the primary-key positions.

use vstd::prelude::*;
use crate::schema::{Schema, SchemaView, ColumnView, RelationView, spec_width, spec_width_rels};

verus! {

/// One UNION arm: the FROM table, the select list, and the arm's join text.
#[derive(Debug)]
pub struct QueryBranch {
    pub table: String,
    pub select: String,
    pub from: String,
}

/// Mathematical model of a [`QueryBranch`].
#[verifier::ext_equal]
pub struct QueryBranchView {
    pub table: Seq<char>,
    pub select: Seq<char>,
    pub from: Seq<char>,
}

impl View for QueryBranch {
    type V = QueryBranchView;

    open spec fn view(&self) -> QueryBranchView {
        QueryBranchView { table: self.table@, select: self.select@, from: self.from@ }
    }
}

impl DeepView for QueryBranch {
    type V = QueryBranchView;

    open spec fn deep_view(&self) -> QueryBranchView {
        self@
    }
}

/// The qualified primary-key column of a schema: `<table>.<pk>`.
pub open spec fn spec_pk_qual(s: SchemaView) -> Seq<char> {
    s.table + "."@ + s.pk
}

/// The select expression of one column: its expression override, or the
/// qualified `<table>.<name>` reference.
pub open spec fn spec_col_select(s: SchemaView, c: ColumnView) -> Seq<char> {
    match c.expression {
        Some(e) => e,
        None => (match c.table {
            Some(t) => t,
            None => s.table
        }) + "."@ + c.name,
    }
}

/// The comma-led select expressions of a column list.
pub open spec fn spec_select_cols_rest(s: SchemaView, cols: Seq<ColumnView>) -> Seq<char>
    decreases cols,
{
    if cols.len() == 0 {
        Seq::empty()
    } else {
        spec_select_cols_rest(s, cols.drop_last()) + ","@ + spec_col_select(s, cols.last())
    }
}

/// The select list of an entity's own columns: the primary key first, then
/// every non-key column.
pub open spec fn spec_select_cols(s: SchemaView) -> Seq<char> {
    spec_pk_qual(s) + spec_select_cols_rest(s, s.columns)
}

/// `n` times `NULL`, comma-separated (`n >= 1`).
pub open spec fn spec_nulls(n: nat) -> Seq<char>
    decreases n,
{
    if n <= 1 {
        "NULL"@
    } else {
        spec_nulls((n - 1) as nat) + ",NULL"@
    }
}

/// The NULL padding of a whole subtree: one `NULL` per column of the
/// flattened subtree.
pub open spec fn spec_null_tpl(s: SchemaView) -> Seq<char>
    decreases s, 0nat,
{
    spec_nulls(1 + s.columns.len()) + spec_null_tpl_rels(s.relations)
}

/// The comma-led NULL paddings of a relation list's subtrees.
pub open spec fn spec_null_tpl_rels(rs: Seq<RelationView>) -> Seq<char>
    decreases rs, 1nat,
{
    if rs.len() == 0 {
        Seq::empty()
    } else {
        spec_null_tpl_rels(rs.drop_last()) + ","@ + spec_null_tpl(rs.last().schema)
    }
}

/// The primary-key positions of a whole subtree whose block starts at
/// `base`: the entity's own key at the block start, then each relation's
/// subtree block in order.
pub open spec fn spec_offsets(s: SchemaView, base: int) -> Seq<int>
    decreases s, 0nat,
{
    seq![base] + spec_offsets_rels(s.relations, base + 1 + s.columns.len() as int)
}

/// The primary-key positions of the relation subtrees, block after block,
/// the first block starting at `base`.
pub open spec fn spec_offsets_rels(rs: Seq<RelationView>, base: int) -> Seq<int>
    decreases rs, 1nat,
{
    if rs.len() == 0 {
        Seq::empty()
    } else {
        spec_offsets(rs[0].schema, base) + spec_offsets_rels(
            rs.drop_first(),
            base + spec_width(rs[0].schema),
        )
    }
}

/// The per-relation tail of an arm's select list: a comma, then either the
/// relation's NULL padding, or — for the relation the arm descends into —
/// the arm's own select text.
pub open spec fn spec_arm_tail(rs: Seq<RelationView>, at: int, inner: Seq<char>) -> Seq<char>
    decreases rs,
{
    if rs.len() == 0 {
        Seq::empty()
    } else {
        spec_arm_tail(rs.drop_last(), at, inner) + ","@ + (if at == rs.len() - 1 {
            inner
        } else {
            spec_null_tpl(rs.last().schema)
        })
    }
}

/// The extra join an arm carries to reach one relation's subtree.
pub open spec fn spec_arm_join(s: SchemaView, r: RelationView, inner_from: Seq<char>) -> Seq<
    char,
> {
    s.joins + " LEFT JOIN "@ + r.schema.table + " ON "@ + spec_pk_qual(s) + "="@ + r.schema.table
        + "."@ + r.fk + " "@ + inner_from
}

/// All UNION arms of a schema tree: the entity's own arm (every relation
/// padded with NULL), then, relation by relation, each arm of the child
/// tree wrapped into this entity's select list and joined through the
/// relation's foreign key.
pub open spec fn spec_branches(s: SchemaView) -> Seq<QueryBranchView>
    decreases s, s.relations.len() + 1,
{
    let own = QueryBranchView {
        table: s.from,
        select: spec_select_cols(s) + spec_arm_tail(s.relations, s.relations.len() as int, Seq::empty()),
        from: s.joins,
    };
    seq![own] + spec_branches_rels(s, 0)
}

/// The arms contributed by the relations of `s` from index `at` on.
pub open spec fn spec_branches_rels(s: SchemaView, at: int) -> Seq<QueryBranchView>
    decreases s, s.relations.len() - at,
{
    if at < 0 || at >= s.relations.len() {
        Seq::empty()
    } else {
        let inner = spec_branches(s.relations[at].schema);
        inner.map_values(
            |b: QueryBranchView| QueryBranchView {
                table: s.from,
                select: spec_select_cols(s) + spec_arm_tail(s.relations, at, b.select),
                from: spec_arm_join(s, s.relations[at], b.from),
            },
        ) + spec_branches_rels(s, at + 1)
    }
}

} // verus!

verus! {

/// Every subtree's width is part of its relation list's summed width.
pub proof fn lemma_width_rels_member(rs: Seq<RelationView>, i: int)
    requires
        0 <= i < rs.len(),
    ensures
        spec_width(rs[i].schema) <= spec_width_rels(rs),
    decreases rs,
{
    if rs.len() > 0 {
        if i == rs.len() - 1 {
            assert(spec_width_rels(rs) == spec_width_rels(rs.drop_last()) + spec_width(
                rs.last().schema,
            ));
            lemma_width_rels_nonneg(rs.drop_last());
        } else {
            lemma_width_rels_member(rs.drop_last(), i);
            assert(rs.drop_last()[i] == rs[i]);
        }
    }
}

/// Summed widths are non-negative.
pub proof fn lemma_width_rels_nonneg(rs: Seq<RelationView>)
    ensures
        spec_width_rels(rs) >= 0,
    decreases rs,
{
}

fn pk_qual(s: &Schema) -> (r: String)
    ensures
        r@ == spec_pk_qual(s@),
{
    let mut r = s.table.clone();
    r.append(".");
    r.append(s.pk.as_str());
    proof {
        assert(r@ =~= spec_pk_qual(s@));
    }
    r
}

fn select_cols(s: &Schema) -> (r: String)
    ensures
        r@ == spec_select_cols(s@),
{
    let mut r = pk_qual(s);
    let ghost base = r@;
    let ghost cols = s@.columns;
    proof {
        crate::schema::lemma_rel_views(s.relations@);
        assert(cols.subrange(0, 0) =~= Seq::<ColumnView>::empty());
    }
    let mut i: usize = 0;
    while i < s.columns.len()
        invariant
            i <= s.columns.len(),
            s.columns@.len() == cols.len(),
            r@ == base + spec_select_cols_rest(s@, cols.subrange(0, i as int)),
            base == spec_pk_qual(s@),
            cols == s@.columns,
        decreases s.columns.len() - i,
    {
        let ghost pre = cols.subrange(0, i as int);
        let ghost post = cols.subrange(0, i + 1 as int);
        r.append(",");
        match &s.columns[i].expression {
            Some(e) => {
                r.append(e.as_str());
            },
            None => {
                match &s.columns[i].table {
                    Some(t) => {
                        r.append(t.as_str());
                    },
                    None => {
                        r.append(s.table.as_str());
                    },
                }
                r.append(".");
                r.append(s.columns[i].name.as_str());
            },
        }
        proof {
            assert(post.drop_last() =~= pre);
            assert(post.last() == s.columns@[i as int]@);
            assert(cols[i as int] == s.columns@[i as int]@);
            assert(r@ =~= base + spec_select_cols_rest(s@, post));
        }
        i = i + 1;
    }
    proof {
        assert(cols.subrange(0, cols.len() as int) =~= cols);
    }
    r
}

fn nulls_text(n: usize) -> (r: String)
    requires
        n >= 1,
    ensures
        r@ == spec_nulls(n as nat),
    decreases n,
{
    if n == 1 {
        let mut r = String::new();
        r.append("NULL");
        proof {
            assert(r@ =~= spec_nulls(n as nat));
        }
        r
    } else {
        let mut r = nulls_text(n - 1);
        r.append(",NULL");
        proof {
            assert(r@ =~= spec_nulls(n as nat));
        }
        r
    }
}

/// Builds the NULL padding of a whole subtree.
#[verifier::loop_isolation(false)]
fn null_template(s: &Schema) -> (r: String)
    requires
        spec_width(s@) <= usize::MAX,
    ensures
        r@ == spec_null_tpl(s@),
    decreases *s,
{
    proof {
        crate::schema::lemma_rel_views(s.relations@);
        crate::query::lemma_width_rels_nonneg(s@.relations);
    }
    let mut r = nulls_text(1 + s.columns.len());
    let ghost base = r@;
    let ghost rels = s@.relations;
    proof {
        assert(rels.subrange(0, 0) =~= Seq::<RelationView>::empty());
        assert(spec_null_tpl_rels(Seq::<RelationView>::empty()) == Seq::<char>::empty());
        assert(r@ =~= base + spec_null_tpl_rels(rels.subrange(0, 0)));
    }
    let mut i: usize = 0;
    while i < s.relations.len()
        invariant
            i <= s.relations.len(),
            r@ == base + spec_null_tpl_rels(rels.subrange(0, i as int)),
        decreases s.relations.len() - i,
    {
        let ghost pre = rels.subrange(0, i as int);
        let ghost post = rels.subrange(0, i + 1 as int);
        proof {
            lemma_width_rels_member(rels, i as int);
        }
        r.append(",");
        let t = null_template(&s.relations[i].schema);
        r.append(t.as_str());
        proof {
            assert(post.drop_last() =~= pre);
            assert(post.last() == rels[i as int]);
            assert(r@ =~= base + spec_null_tpl_rels(post));
        }
        i = i + 1;
    }
    proof {
        assert(rels.subrange(0, rels.len() as int) =~= rels);
    }
    r
}

/// The integer views of a position list.
pub open spec fn spec_pos_ints(v: Seq<usize>) -> Seq<int> {
    v.map_values(|x: usize| x as int)
}

/// Appends the primary-key positions of the subtree whose block starts at
/// `base`.
#[verifier::loop_isolation(false)]
fn push_offsets(s: &Schema, base: usize, out: &mut Vec<usize>)
    requires
        base + spec_width(s@) <= usize::MAX,
    ensures
        spec_pos_ints(final(out)@) == spec_pos_ints(old(out)@) + spec_offsets(s@, base as int),
    decreases *s,
{
    proof {
        crate::schema::lemma_rel_views(s.relations@);
        lemma_width_rels_nonneg(s@.relations);
    }
    out.push(base);
    let ghost rels = s@.relations;
    let ghost first = base as int + 1 + s@.columns.len() as int;
    let mut cur: usize = base + 1 + s.columns.len();
    proof {
        assert(spec_pos_ints(out@) =~= spec_pos_ints(old(out)@) + seq![base as int]);
        assert(rels.subrange(0, 0) =~= Seq::<RelationView>::empty());
        assert(rels.subrange(0, rels.len() as int) =~= rels);
        assert(spec_width_rels(Seq::<RelationView>::empty()) == 0);
        assert(spec_offsets_rels(Seq::<RelationView>::empty(), first) =~= Seq::<int>::empty());
    }
    let ghost after_pk = spec_pos_ints(out@);
    let mut i: usize = 0;
    while i < s.relations.len()
        invariant
            i <= s.relations.len(),
            cur as int == first + spec_width_rels(rels.subrange(0, i as int)),
            cur as int + spec_width_rels(rels.subrange(i as int, rels.len() as int)) == base
                + spec_width(s@),
            spec_pos_ints(out@) == after_pk + spec_offsets_rels(rels.subrange(0, i as int), first),
        decreases s.relations.len() - i,
    {
        let ghost pre = rels.subrange(0, i as int);
        let ghost post = rels.subrange(0, i + 1 as int);
        let ghost suf = rels.subrange(i as int, rels.len() as int);
        let ghost suf2 = rels.subrange(i + 1 as int, rels.len() as int);
        proof {
            assert(suf[0] == rels[i as int]);
            assert(suf.drop_first() =~= suf2);
            lemma_width_rels_nonneg(suf2);
            lemma_width_rels_nonneg(pre);
            lemma_width_rels_split(suf);
        }
        let ghost out_pre = spec_pos_ints(out@);
        push_offsets(&s.relations[i].schema, cur, out);
        let w = crate::schema::width(&s.relations[i].schema);
        cur = cur + w;
        proof {
            assert(post.drop_last() =~= pre);
            assert(post.last() == rels[i as int]);
            crate::schema::lemma_width_rels_concat(pre, seq![rels[i as int]]);
            assert(pre + seq![rels[i as int]] =~= post);
            assert(seq![rels[i as int]].drop_last() =~= Seq::<RelationView>::empty());
            assert(seq![rels[i as int]].last() == rels[i as int]);
            assert(spec_width_rels(Seq::<RelationView>::empty()) == 0);
            assert(spec_width_rels(seq![rels[i as int]]) == spec_width(rels[i as int].schema));
            lemma_offsets_rels_snoc(pre, rels[i as int], first);
            assert(pre.push(rels[i as int]) =~= post);
            assert(spec_pos_ints(out@) =~= after_pk + spec_offsets_rels(post, first));
        }
        i = i + 1;
    }
    proof {
        assert(rels.subrange(0, rels.len() as int) =~= rels);
        assert(spec_pos_ints(out@) =~= spec_pos_ints(old(out)@) + spec_offsets(s@, base as int));
    }
}

/// Extending a relation list extends its offset blocks at the end.
pub proof fn lemma_offsets_rels_snoc(rs: Seq<RelationView>, r: RelationView, base: int)
    ensures
        spec_offsets_rels(rs.push(r), base) == spec_offsets_rels(rs, base) + spec_offsets(
            r.schema,
            base + spec_width_rels(rs),
        ),
    decreases rs,
{
    if rs.len() == 0 {
        assert(rs.push(r)[0] == r);
        assert(rs.push(r).drop_first() =~= Seq::<RelationView>::empty());
        assert(rs =~= Seq::<RelationView>::empty());
        assert(spec_offsets_rels(
            Seq::<RelationView>::empty(),
            base + spec_width(r.schema),
        ) =~= Seq::<int>::empty());
        assert(spec_offsets_rels(rs.push(r), base) =~= spec_offsets(r.schema, base));
        assert(spec_width_rels(rs) == 0);
        assert(spec_offsets_rels(rs, base) =~= Seq::<int>::empty());
    } else {
        assert(rs.push(r)[0] == rs[0]);
        assert(rs.push(r).drop_first() =~= rs.drop_first().push(r));
        lemma_offsets_rels_snoc(rs.drop_first(), r, base + spec_width(rs[0].schema));
        assert(rs.drop_last().push(rs.last()) =~= rs);
        lemma_width_rels_split(rs);
        assert(spec_offsets_rels(rs.push(r), base) =~= spec_offsets_rels(rs, base) + spec_offsets(
            r.schema,
            base + spec_width_rels(rs),
        ));
    }
}

/// The summed width splits at the head of the list.
pub proof fn lemma_width_rels_split(rs: Seq<RelationView>)
    requires
        rs.len() > 0,
    ensures
        spec_width_rels(rs) == spec_width(rs[0].schema) + spec_width_rels(rs.drop_first()),
{
    assert(seq![rs[0]] + rs.drop_first() =~= rs);
    crate::schema::lemma_width_rels_concat(seq![rs[0]], rs.drop_first());
    assert(seq![rs[0]].drop_last() =~= Seq::<RelationView>::empty());
    assert(seq![rs[0]].last() == rs[0]);
    assert(spec_width_rels(Seq::<RelationView>::empty()) == 0);
    assert(spec_width_rels(seq![rs[0]]) == spec_width(rs[0].schema));
}

} // verus!

verus! {

/// Appends the per-relation tail of an arm's select list; `at` names the
/// relation the arm descends into (out of range: none).
#[verifier::loop_isolation(false)]
fn append_arm_tail(out: &mut String, s: &Schema, at: usize, inner: &str)
    requires
        spec_width(s@) <= usize::MAX,
    ensures
        final(out)@ == old(out)@ + spec_arm_tail(s@.relations, at as int, inner@),
{
    let ghost rels = s@.relations;
    proof {
        crate::schema::lemma_rel_views(s.relations@);
        lemma_width_rels_nonneg(rels);
        assert(rels.subrange(0, 0) =~= Seq::<RelationView>::empty());
        assert(spec_arm_tail(Seq::<RelationView>::empty(), at as int, inner@) == Seq::<
            char,
        >::empty());
        assert(out@ =~= old(out)@ + spec_arm_tail(rels.subrange(0, 0), at as int, inner@));
    }
    let mut i: usize = 0;
    while i < s.relations.len()
        invariant
            i <= s.relations.len(),
            out@ == old(out)@ + spec_arm_tail(rels.subrange(0, i as int), at as int, inner@),
        decreases s.relations.len() - i,
    {
        let ghost pre = rels.subrange(0, i as int);
        let ghost post = rels.subrange(0, i + 1 as int);
        proof {
            lemma_width_rels_member(rels, i as int);
            assert(post.drop_last() =~= pre);
            assert(post.last() == rels[i as int]);
        }
        out.append(",");
        if i == at {
            out.append(inner);
        } else {
            let t = null_template(&s.relations[i].schema);
            out.append(t.as_str());
        }
        proof {
            assert(out@ =~= old(out)@ + spec_arm_tail(post, at as int, inner@));
        }
        i = i + 1;
    }
    proof {
        assert(rels.subrange(0, rels.len() as int) =~= rels);
    }
}

/// Builds every UNION arm of the schema tree, the entity's own arm first.
#[verifier::loop_isolation(false)]
fn branches(s: &Schema) -> (r: Vec<QueryBranch>)
    requires
        spec_width(s@) <= usize::MAX,
    ensures
        r.deep_view() == spec_branches(s@),
    decreases *s,
{
    let ghost rels = s@.relations;
    proof {
        crate::schema::lemma_rel_views(s.relations@);
        lemma_width_rels_nonneg(rels);
    }
    let mut v: Vec<QueryBranch> = Vec::new();
    let mut own_sel = select_cols(s);
    append_arm_tail(&mut own_sel, s, s.relations.len(), "");
    let own = QueryBranch { table: s.from.clone(), select: own_sel, from: s.joins.clone() };
    proof {
        reveal_strlit("");
        assert(""@ =~= Seq::<char>::empty());
        assert(own@ =~~= QueryBranchView {
            table: s@.from,
            select: spec_select_cols(s@) + spec_arm_tail(rels, rels.len() as int, Seq::empty()),
            from: s@.joins,
        });
    }
    v.push(own);
    proof {
        assert(v.deep_view() + spec_branches_rels(s@, 0) =~~= spec_branches(s@));
    }
    let mut i: usize = 0;
    while i < s.relations.len()
        invariant
            i <= s.relations.len(),
            v.deep_view() + spec_branches_rels(s@, i as int) == spec_branches(s@),
        decreases s.relations.len() - i,
    {
        proof {
            lemma_width_rels_member(rels, i as int);
        }
        let inner = branches(&s.relations[i].schema);
        let ghost inner_views = spec_branches(rels[i as int].schema);
        let ghost mapped = spec_branches_rels(s@, i as int).subrange(0, inner_views.len() as int);
        proof {
            assert(spec_branches_rels(s@, i as int) == inner_views.map_values(
                |b: QueryBranchView| QueryBranchView {
                    table: s@.from,
                    select: spec_select_cols(s@) + spec_arm_tail(rels, i as int, b.select),
                    from: spec_arm_join(s@, rels[i as int], b.from),
                },
            ) + spec_branches_rels(s@, i + 1 as int));
            assert(mapped =~= inner_views.map_values(
                |b: QueryBranchView| QueryBranchView {
                    table: s@.from,
                    select: spec_select_cols(s@) + spec_arm_tail(rels, i as int, b.select),
                    from: spec_arm_join(s@, rels[i as int], b.from),
                },
            ));
            assert(mapped.subrange(0, 0) =~= Seq::<QueryBranchView>::empty());
        }
        let pq = pk_qual(s);
        let mut j: usize = 0;
        while j < inner.len()
            invariant
                j <= inner.len(),
                inner@.len() == inner_views.len(),
                inner.deep_view() == inner_views,
                mapped.len() == inner_views.len(),
                v.deep_view() + mapped.subrange(j as int, mapped.len() as int)
                    + spec_branches_rels(s@, i + 1 as int) == spec_branches(s@),
                forall|k: int|
                    0 <= k < mapped.len() ==> #[trigger] mapped[k] == (QueryBranchView {
                        table: s@.from,
                        select: spec_select_cols(s@) + spec_arm_tail(
                            rels,
                            i as int,
                            inner_views[k].select,
                        ),
                        from: spec_arm_join(s@, rels[i as int], inner_views[k].from),
                    }),
            decreases inner.len() - j,
        {
            let mut sel = select_cols(s);
            append_arm_tail(&mut sel, s, i, inner[j].select.as_str());
            let mut fr = s.joins.clone();
            fr.append(" LEFT JOIN ");
            fr.append(s.relations[i].schema.table.as_str());
            fr.append(" ON ");
            fr.append(pq.as_str());
            fr.append("=");
            fr.append(s.relations[i].schema.table.as_str());
            fr.append(".");
            fr.append(s.relations[i].fk.as_str());
            fr.append(" ");
            fr.append(inner[j].from.as_str());
            let arm = QueryBranch { table: s.from.clone(), select: sel, from: fr };
            proof {
                assert(inner@[j as int]@ == inner_views[j as int]);
                assert(arm@.from =~= spec_arm_join(s@, rels[i as int], inner_views[j as int].from));
                assert(arm@ =~~= mapped[j as int]);
            }
            v.push(arm);
            proof {
                assert(mapped.subrange(j as int, mapped.len() as int) =~= seq![
                    mapped[j as int],
                ] + mapped.subrange(j + 1 as int, mapped.len() as int));
                assert(v.deep_view() + mapped.subrange(j + 1 as int, mapped.len() as int)
                    + spec_branches_rels(s@, i + 1 as int) =~~= spec_branches(s@));
            }
            j = j + 1;
        }
        proof {
            assert(mapped.subrange(mapped.len() as int, mapped.len() as int) =~= Seq::<
                QueryBranchView,
            >::empty());
            assert(v.deep_view() + spec_branches_rels(s@, i + 1 as int) =~~= spec_branches(s@));
        }
        i = i + 1;
    }
    proof {
        assert(spec_branches_rels(s@, rels.len() as int) =~= Seq::<QueryBranchView>::empty());
        assert(v.deep_view() =~~= spec_branches(s@));
    }
    v
}

/// Builds the query parts of a schema tree: the table alias, the subtree's
/// NULL padding, the primary-key positions, and every UNION arm.
pub fn sql(schema: &Schema) -> (r: (String, String, Vec<usize>, Vec<QueryBranch>))
    requires
        spec_width(schema@) <= usize::MAX,
    ensures
        r.0@ == schema@.table,
        r.1@ == spec_null_tpl(schema@),
        spec_pos_ints(r.2@) == spec_offsets(schema@, 0),
        r.3.deep_view() == spec_branches(schema@),
{
    let table = schema.table.clone();
    let tpl = null_template(schema);
    let mut offs: Vec<usize> = Vec::new();
    push_offsets(schema, 0, &mut offs);
    proof {
        assert(spec_pos_ints(offs@) =~= spec_offsets(schema@, 0));
    }
    let arms = branches(schema);
    (table, tpl, offs, arms)
}

} // verus!

verus! {

/// One UNION arm as a full point-lookup SELECT.
pub open spec fn spec_arm_sql(root: SchemaView, b: QueryBranchView) -> Seq<char> {
    "SELECT "@ + b.select + " FROM "@ + b.table + " "@ + b.from + " WHERE "@ + spec_pk_qual(root)
        + "=?"@
}

/// The arms joined by `UNION ALL`.
pub open spec fn spec_union_sql(root: SchemaView, bs: Seq<QueryBranchView>) -> Seq<char>
    decreases bs,
{
    if bs.len() == 0 {
        Seq::empty()
    } else if bs.len() == 1 {
        spec_arm_sql(root, bs[0])
    } else {
        spec_union_sql(root, bs.drop_last()) + " UNION ALL "@ + spec_arm_sql(root, bs.last())
    }
}

/// The one-based ORDER BY position list, comma-separated.
pub open spec fn spec_order_list(offs: Seq<int>) -> Seq<char>
    decreases offs,
{
    if offs.len() == 0 {
        Seq::empty()
    } else if offs.len() == 1 {
        crate::values::spec_dec((offs[0] + 1) as nat)
    } else {
        spec_order_list(offs.drop_last()) + ","@ + crate::values::spec_dec(
            (offs.last() + 1) as nat,
        )
    }
}

/// The single point-lookup statement for a whole entity graph: every arm
/// with a `WHERE <pk>=?` clause, combined with UNION ALL, ordered by the
/// primary-key positions.
pub open spec fn spec_get_by_pk_sql(s: SchemaView) -> Seq<char> {
    spec_union_sql(s, spec_branches(s)) + " ORDER BY "@ + spec_order_list(spec_offsets(s, 0))
        + ";"@
}

/// Every position of a subtree's offset list lies inside its block.
pub proof fn lemma_offsets_bounds(s: SchemaView, base: int)
    ensures
        forall|k: int|
            0 <= k < spec_offsets(s, base).len() ==> base <= #[trigger] spec_offsets(s, base)[k]
                < base + spec_width(s),
    decreases s, 0nat,
{
    lemma_width_rels_nonneg(s.relations);
    lemma_offsets_rels_bounds(s.relations, base + 1 + s.columns.len() as int);
    assert forall|k: int| 0 <= k < spec_offsets(s, base).len() implies base <= #[trigger] spec_offsets(
        s,
        base,
    )[k] < base + spec_width(s) by {
        if k > 0 {
            let rest = spec_offsets_rels(s.relations, base + 1 + s.columns.len() as int);
            assert(spec_offsets(s, base)[k] == rest[k - 1]);
        }
    }
}

/// Every position of the relation blocks lies inside their span.
pub proof fn lemma_offsets_rels_bounds(rs: Seq<RelationView>, base: int)
    ensures
        forall|k: int|
            0 <= k < spec_offsets_rels(rs, base).len() ==> base <= #[trigger] spec_offsets_rels(
                rs,
                base,
            )[k] < base + spec_width_rels(rs),
    decreases rs, 1nat,
{
    if rs.len() > 0 {
        lemma_offsets_bounds(rs[0].schema, base);
        lemma_offsets_rels_bounds(rs.drop_first(), base + spec_width(rs[0].schema));
        lemma_width_rels_split(rs);
        lemma_width_rels_nonneg(rs.drop_first());
        assert forall|k: int| 0 <= k < spec_offsets_rels(rs, base).len() implies base
            <= #[trigger] spec_offsets_rels(rs, base)[k] < base + spec_width_rels(rs) by {
            let head = spec_offsets(rs[0].schema, base);
            let rest = spec_offsets_rels(rs.drop_first(), base + spec_width(rs[0].schema));
            if k < head.len() {
                assert(spec_offsets_rels(rs, base)[k] == head[k]);
            } else {
                assert(spec_offsets_rels(rs, base)[k] == rest[k - head.len()]);
            }
        }
    }
}

/// Builds the point-lookup statement for a whole entity graph, and returns
/// how many times the looked-up key must be bound (once per UNION arm).
#[verifier::loop_isolation(false)]
pub fn get_by_pk_sql(schema: &Schema) -> (r: (String, usize))
    requires
        spec_width(schema@) <= usize::MAX,
    ensures
        r.0@ == spec_get_by_pk_sql(schema@),
        r.1 == spec_branches(schema@).len(),
{
    let (_, _, offs, arms) = sql(schema);
    let pq = pk_qual(schema);
    let ghost bs = spec_branches(schema@);
    let mut q = String::new();
    proof {
        assert(bs.subrange(0, 0) =~= Seq::<QueryBranchView>::empty());
        assert(q@ =~= spec_union_sql(schema@, bs.subrange(0, 0)));
    }
    let mut i: usize = 0;
    while i < arms.len()
        invariant
            i <= arms.len(),
            arms@.len() == bs.len(),
            arms.deep_view() == bs,
            q@ == spec_union_sql(schema@, bs.subrange(0, i as int)),
        decreases arms.len() - i,
    {
        let ghost pre = bs.subrange(0, i as int);
        let ghost post = bs.subrange(0, i + 1 as int);
        if i > 0 {
            q.append(" UNION ALL ");
        }
        q.append("SELECT ");
        q.append(arms[i].select.as_str());
        q.append(" FROM ");
        q.append(arms[i].table.as_str());
        q.append(" ");
        q.append(arms[i].from.as_str());
        q.append(" WHERE ");
        q.append(pq.as_str());
        q.append("=?");
        proof {
            assert(post.drop_last() =~= pre);
            assert(post.last() == arms@[i as int]@);
            assert(q@ =~= spec_union_sql(schema@, post));
        }
        i = i + 1;
    }
    proof {
        assert(bs.subrange(0, bs.len() as int) =~= bs);
    }
    q.append(" ORDER BY ");
    let ghost all_offs = spec_offsets(schema@, 0);
    let ghost base2 = q@;
    proof {
        lemma_offsets_bounds(schema@, 0);
        assert(all_offs.subrange(0, 0) =~= Seq::<int>::empty());
        assert(q@ =~= base2 + spec_order_list(all_offs.subrange(0, 0)));
    }
    let mut j: usize = 0;
    while j < offs.len()
        invariant
            j <= offs.len(),
            offs@.len() == all_offs.len(),
            spec_pos_ints(offs@) == all_offs,
            q@ == base2 + spec_order_list(all_offs.subrange(0, j as int)),
        decreases offs.len() - j,
    {
        let ghost pre = all_offs.subrange(0, j as int);
        let ghost post = all_offs.subrange(0, j + 1 as int);
        if j > 0 {
            q.append(",");
        }
        proof {
            assert(all_offs[j as int] == offs@[j as int] as int);
            assert(0 <= all_offs[j as int] < spec_width(schema@));
        }
        let d = crate::values::u64_to_dec((offs[j] as u64) + 1);
        q.append(d.as_str());
        proof {
            assert(post.drop_last() =~= pre);
            assert(post.last() == all_offs[j as int]);
            reveal_strlit(",");
            assert(","@ =~= seq![',']);
            assert(q@ =~= base2 + spec_order_list(post));
        }
        j = j + 1;
    }
    proof {
        assert(all_offs.subrange(0, all_offs.len() as int) =~= all_offs);
    }
    q.append(";");
    proof {
        assert(q@ =~= spec_get_by_pk_sql(schema@));
    }
    (q, arms.len())
}

/// The text `sql_order_by` produces for a selector: the prefix and suffix
/// as they stand, with an ORDER BY on the chosen column between them.
pub open spec fn spec_sql_order_by(
    order_by: int,
    cols: Seq<Seq<char>>,
    prefix: Seq<char>,
    suffix: Seq<char>,
) -> Seq<char> {
    if order_by == 0 {
        prefix + suffix
    } else {
        let col = cols[(order_by - 1) / 2];
        let dir: Seq<char> = if order_by % 2 == 1 {
            " ASC "@
        } else {
            " DESC "@
        };
        prefix + " ORDER BY "@ + col + dir + suffix
    }
}

/// Picks an ORDER BY clause by selector: `0` keeps the statement as it is;
/// `2k+1` orders by the `k`-th column ascending, `2k+2` descending; any
/// selector beyond the column list is refused.
pub fn sql_order_by(order_by: usize, cols: &Vec<String>, sql_prefix: &str, sql_suffix: &str) -> (r:
    Result<String, ()>)
    ensures
        match r {
            Ok(q) => order_by <= 2 * cols@.len() && q@ == spec_sql_order_by(
                order_by as int,
                cols.deep_view(),
                sql_prefix@,
                sql_suffix@,
            ),
            Err(()) => order_by > 2 * cols@.len(),
        },
{
    if order_by == 0 {
        let mut q = sql_prefix.to_owned();
        q.append(sql_suffix);
        proof {
            assert(q@ =~= spec_sql_order_by(0, cols.deep_view(), sql_prefix@, sql_suffix@));
        }
        return Ok(q);
    }
    let idx = (order_by - 1) / 2;
    if idx >= cols.len() {
        return Err(());
    }
    let mut q = sql_prefix.to_owned();
    q.append(" ORDER BY ");
    q.append(cols[idx].as_str());
    if order_by % 2 == 1 {
        q.append(" ASC ");
    } else {
        q.append(" DESC ");
    }
    q.append(sql_suffix);
    proof {
        assert(q@ =~= spec_sql_order_by(
            order_by as int,
            cols.deep_view(),
            sql_prefix@,
            sql_suffix@,
        ));
    }
    Ok(q)
}

} // verus!
