//! The mutation SQL generator: plans of SET/INSERT/UPDATE/DELETE statements
//! that cascade through an entity graph, and the renderer that turns a plan
//! into one multi-statement batch.

use vstd::prelude::*;
use crate::values::{DbValue, DbValueView, spec_dec, spec_sql_literal, u64_to_dec, value_as_sql};

verus! {

/// A reference to a parent row's session variable: the foreign-key column
/// name on this table, and the parent's synthetic id.
#[derive(Debug)]
pub struct FkRef {
    pub name: String,
    pub parent: u64,
}

/// Mathematical model of an [`FkRef`].
#[verifier::ext_equal]
pub struct FkRefView {
    pub name: Seq<char>,
    pub parent: u64,
}

impl View for FkRef {
    type V = FkRefView;

    open spec fn view(&self) -> FkRefView {
        FkRefView { name: self.name@, parent: self.parent }
    }
}

/// One statement of a mutation batch.
///
/// `Insert` and `Update` carry the writable column names and the cell values
/// in matching order; `fk` ties a child row to its parent's session
/// variable.
#[derive(Debug)]
pub enum SqlStmt {
    /// `SET @id_<id>=<pk>;` — binds a synthetic id to a known key.
    SetVar { id: u64, pk: u64 },
    /// `SET @id_<id> = LAST_INSERT_ID();` — binds a synthetic id to the key
    /// the previous INSERT generated.
    SetLastInsertId { id: u64 },
    /// `INSERT INTO <table> ([<fk>,]<columns>) VALUES ([@id_<parent>,]<values>);`
    Insert { table: String, columns: Vec<String>, values: Vec<DbValue>, fk: Option<FkRef> },
    /// `UPDATE <table> SET <col>=<value>,... WHERE <pk_col>=@id_<id>[ AND <fk>=@id_<parent>];`
    Update {
        table: String,
        pk_col: String,
        columns: Vec<String>,
        values: Vec<DbValue>,
        id: u64,
        fk: Option<FkRef>,
    },
    /// `DELETE FROM <table> WHERE <pk_col>=@id_<id>[ AND <fk>=@id_<parent>];`
    Delete { table: String, pk_col: String, id: u64, fk: Option<FkRef> },
}

/// Mathematical model of a [`SqlStmt`].
#[verifier::ext_equal]
pub enum SqlStmtView {
    SetVar { id: u64, pk: u64 },
    SetLastInsertId { id: u64 },
    Insert {
        table: Seq<char>,
        columns: Seq<Seq<char>>,
        values: Seq<DbValueView>,
        fk: Option<FkRefView>,
    },
    Update {
        table: Seq<char>,
        pk_col: Seq<char>,
        columns: Seq<Seq<char>>,
        values: Seq<DbValueView>,
        id: u64,
        fk: Option<FkRefView>,
    },
    Delete { table: Seq<char>, pk_col: Seq<char>, id: u64, fk: Option<FkRefView> },
}

impl View for SqlStmt {
    type V = SqlStmtView;

    open spec fn view(&self) -> SqlStmtView {
        match self {
            SqlStmt::SetVar { id, pk } => SqlStmtView::SetVar { id: *id, pk: *pk },
            SqlStmt::SetLastInsertId { id } => SqlStmtView::SetLastInsertId { id: *id },
            SqlStmt::Insert { table, columns, values, fk } => SqlStmtView::Insert {
                table: table@,
                columns: columns.deep_view(),
                values: values.deep_view(),
                fk: match fk {
                    Some(f) => Some(f@),
                    None => None,
                },
            },
            SqlStmt::Update { table, pk_col, columns, values, id, fk } => SqlStmtView::Update {
                table: table@,
                pk_col: pk_col@,
                columns: columns.deep_view(),
                values: values.deep_view(),
                id: *id,
                fk: match fk {
                    Some(f) => Some(f@),
                    None => None,
                },
            },
            SqlStmt::Delete { table, pk_col, id, fk } => SqlStmtView::Delete {
                table: table@,
                pk_col: pk_col@,
                id: *id,
                fk: match fk {
                    Some(f) => Some(f@),
                    None => None,
                },
            },
        }
    }
}

impl DeepView for SqlStmt {
    type V = SqlStmtView;

    open spec fn deep_view(&self) -> SqlStmtView {
        self.view()
    }
}

/// The items joined by commas.
pub open spec fn spec_comma_join(items: Seq<Seq<char>>) -> Seq<char>
    decreases items,
{
    if items.len() == 0 {
        Seq::empty()
    } else if items.len() == 1 {
        items[0]
    } else {
        spec_comma_join(items.drop_last()) + seq![','] + items.last()
    }
}

/// The SQL literal text of each value, in order.
pub open spec fn spec_lit_texts(vals: Seq<DbValueView>) -> Seq<Seq<char>> {
    Seq::new(vals.len(), |i: int| spec_sql_literal(vals[i]))
}

/// Each value's literal text with a leading comma, concatenated.
pub open spec fn spec_comma_prefixed(vals: Seq<DbValueView>) -> Seq<char>
    decreases vals,
{
    if vals.len() == 0 {
        Seq::empty()
    } else {
        spec_comma_prefixed(vals.drop_last()) + seq![','] + spec_sql_literal(vals.last())
    }
}

/// The `<col>=<literal>` assignment texts, in order.
pub open spec fn spec_assign_texts(cols: Seq<Seq<char>>, vals: Seq<DbValueView>) -> Seq<
    Seq<char>,
> {
    Seq::new(cols.len(), |i: int| cols[i] + "="@ + spec_sql_literal(vals[i]))
}

/// The session-variable reference `@id_<id>`.
pub open spec fn spec_id_ref(id: u64) -> Seq<char> {
    "@id_"@ + spec_dec(id as nat)
}

/// The optional ` AND <fk>=@id_<parent>` tail of a WHERE clause.
pub open spec fn spec_fk_clause(fk: Option<FkRefView>) -> Seq<char> {
    match fk {
        Some(f) => " AND "@ + f.name + "="@ + spec_id_ref(f.parent),
        None => Seq::empty(),
    }
}

/// The exact SQL text of one statement.
pub open spec fn spec_stmt_text(st: SqlStmtView) -> Seq<char> {
    match st {
        SqlStmtView::SetVar { id, pk } => "SET @id_"@ + spec_dec(id as nat) + "="@ + spec_dec(
            pk as nat,
        ) + ";"@,
        SqlStmtView::SetLastInsertId { id } => "SET @id_"@ + spec_dec(id as nat)
            + " = LAST_INSERT_ID();"@,
        SqlStmtView::Insert { table, columns, values, fk } => {
            let cols_text = match fk {
                Some(f) => f.name + ","@ + spec_comma_join(columns),
                None => spec_comma_join(columns),
            };
            let vals_text = match fk {
                Some(f) => spec_id_ref(f.parent) + spec_comma_prefixed(values),
                None => spec_comma_join(spec_lit_texts(values)),
            };
            "INSERT INTO "@ + table + " ("@ + cols_text + ") VALUES ("@ + vals_text + ");"@
        },
        SqlStmtView::Update { table, pk_col, columns, values, id, fk } => "UPDATE "@ + table
            + " SET "@ + spec_comma_join(spec_assign_texts(columns, values)) + " WHERE "@ + pk_col
            + "="@ + spec_id_ref(id) + spec_fk_clause(fk) + ";"@,
        SqlStmtView::Delete { table, pk_col, id, fk } => "DELETE FROM "@ + table + " WHERE "@
            + pk_col + "="@ + spec_id_ref(id) + spec_fk_clause(fk) + ";"@,
    }
}

/// The exact SQL text of a whole plan, statement after statement.
pub open spec fn spec_plan_text(p: Seq<SqlStmtView>) -> Seq<char>
    decreases p,
{
    if p.len() == 0 {
        Seq::empty()
    } else {
        spec_plan_text(p.drop_last()) + spec_stmt_text(p.last())
    }
}

fn append_id_ref(out: &mut String, id: u64)
    ensures
        final(out)@ == old(out)@ + spec_id_ref(id),
{
    out.append("@id_");
    let d = u64_to_dec(id);
    out.append(d.as_str());
    proof {
        assert(out@ =~= old(out)@ + spec_id_ref(id));
    }
}

fn append_comma_join(out: &mut String, items: &Vec<String>)
    ensures
        final(out)@ == old(out)@ + spec_comma_join(items.deep_view()),
{
    let ghost base = out@;
    let mut i: usize = 0;
    while i < items.len()
        invariant
            i <= items.len(),
            out@ == base + spec_comma_join(items.deep_view().subrange(0, i as int)),
        decreases items.len() - i,
    {
        let ghost pre = items.deep_view().subrange(0, i as int);
        let ghost post = items.deep_view().subrange(0, i + 1 as int);
        if i > 0 {
            out.append(",");
        }
        out.append(items[i].as_str());
        proof {
            assert(post.drop_last() =~= pre);
            assert(post.last() == items@[i as int]@);
            if i == 0 {
                assert(out@ =~= base + spec_comma_join(post));
            } else {
                reveal_strlit(",");
                assert(","@ =~= seq![',']);
                assert(out@ =~= base + spec_comma_join(post));
            }
        }
        i = i + 1;
    }
    proof {
        assert(items.deep_view().subrange(0, items.len() as int) =~= items.deep_view());
        if items.len() == 0 {
            assert(out@ =~= base + spec_comma_join(items.deep_view()));
        }
    }
}

fn append_comma_join_lits(out: &mut String, vals: &Vec<DbValue>)
    ensures
        final(out)@ == old(out)@ + spec_comma_join(spec_lit_texts(vals.deep_view())),
{
    let ghost base = out@;
    let mut i: usize = 0;
    while i < vals.len()
        invariant
            i <= vals.len(),
            out@ == base + spec_comma_join(spec_lit_texts(vals.deep_view()).subrange(0, i as int)),
        decreases vals.len() - i,
    {
        let ghost all = spec_lit_texts(vals.deep_view());
        let ghost pre = all.subrange(0, i as int);
        let ghost post = all.subrange(0, i + 1 as int);
        if i > 0 {
            out.append(",");
        }
        let lit = value_as_sql(&vals[i]);
        out.append(lit.as_str());
        proof {
            assert(post.drop_last() =~= pre);
            assert(post.last() == spec_sql_literal(vals@[i as int]@));
            if i == 0 {
                assert(out@ =~= base + spec_comma_join(post));
            } else {
                reveal_strlit(",");
                assert(","@ =~= seq![',']);
                assert(out@ =~= base + spec_comma_join(post));
            }
        }
        i = i + 1;
    }
    proof {
        assert(spec_lit_texts(vals.deep_view()).subrange(0, vals.len() as int) =~= spec_lit_texts(
            vals.deep_view(),
        ));
        if vals.len() == 0 {
            assert(out@ =~= base + spec_comma_join(spec_lit_texts(vals.deep_view())));
        }
    }
}

fn append_comma_prefixed(out: &mut String, vals: &Vec<DbValue>)
    ensures
        final(out)@ == old(out)@ + spec_comma_prefixed(vals.deep_view()),
{
    let ghost base = out@;
    let mut i: usize = 0;
    while i < vals.len()
        invariant
            i <= vals.len(),
            out@ == base + spec_comma_prefixed(vals.deep_view().subrange(0, i as int)),
        decreases vals.len() - i,
    {
        let ghost pre = vals.deep_view().subrange(0, i as int);
        let ghost post = vals.deep_view().subrange(0, i + 1 as int);
        out.append(",");
        let lit = value_as_sql(&vals[i]);
        out.append(lit.as_str());
        proof {
            assert(post.drop_last() =~= pre);
            assert(post.last() == vals@[i as int]@);
            reveal_strlit(",");
            assert(","@ =~= seq![',']);
            assert(out@ =~= base + spec_comma_prefixed(post));
        }
        i = i + 1;
    }
    proof {
        assert(vals.deep_view().subrange(0, vals.len() as int) =~= vals.deep_view());
        if vals.len() == 0 {
            assert(out@ =~= base + spec_comma_prefixed(vals.deep_view()));
        }
    }
}

fn append_assigns(out: &mut String, cols: &Vec<String>, vals: &Vec<DbValue>)
    requires
        cols@.len() == vals@.len(),
    ensures
        final(out)@ == old(out)@ + spec_comma_join(
            spec_assign_texts(cols.deep_view(), vals.deep_view()),
        ),
{
    let ghost base = out@;
    let mut i: usize = 0;
    while i < cols.len()
        invariant
            i <= cols.len(),
            cols@.len() == vals@.len(),
            out@ == base + spec_comma_join(
                spec_assign_texts(cols.deep_view(), vals.deep_view()).subrange(0, i as int),
            ),
        decreases cols.len() - i,
    {
        let ghost all = spec_assign_texts(cols.deep_view(), vals.deep_view());
        let ghost pre = all.subrange(0, i as int);
        let ghost post = all.subrange(0, i + 1 as int);
        if i > 0 {
            out.append(",");
        }
        out.append(cols[i].as_str());
        out.append("=");
        let lit = value_as_sql(&vals[i]);
        out.append(lit.as_str());
        proof {
            assert(post.drop_last() =~= pre);
            assert(post.last() == cols@[i as int]@ + "="@ + spec_sql_literal(vals@[i as int]@));
            if i == 0 {
                assert(out@ =~= base + spec_comma_join(post));
            } else {
                reveal_strlit(",");
                assert(","@ =~= seq![',']);
                assert(out@ =~= base + spec_comma_join(post));
            }
        }
        i = i + 1;
    }
    proof {
        let all = spec_assign_texts(cols.deep_view(), vals.deep_view());
        assert(all.subrange(0, cols.len() as int) =~= all);
        if cols.len() == 0 {
            assert(out@ =~= base + spec_comma_join(all));
        }
    }
}

/// Appends the exact SQL text of one statement.
#[verifier::rlimit(60)]
fn render_stmt(st: &SqlStmt, out: &mut String)
    requires
        match st {
            SqlStmt::Update { columns, values, .. } => columns@.len() == values@.len(),
            _ => true,
        },
    ensures
        final(out)@ == old(out)@ + spec_stmt_text(st@),
{
    match st {
        SqlStmt::SetVar { id, pk } => {
            out.append("SET @id_");
            let d = u64_to_dec(*id);
            out.append(d.as_str());
            out.append("=");
            let p = u64_to_dec(*pk);
            out.append(p.as_str());
            out.append(";");
            proof {
                assert(out@ =~= old(out)@ + spec_stmt_text(st@));
            }
        },
        SqlStmt::SetLastInsertId { id } => {
            out.append("SET @id_");
            let d = u64_to_dec(*id);
            out.append(d.as_str());
            out.append(" = LAST_INSERT_ID();");
            proof {
                assert(out@ =~= old(out)@ + spec_stmt_text(st@));
            }
        },
        SqlStmt::Insert { table, columns, values, fk } => {
            out.append("INSERT INTO ");
            out.append(table.as_str());
            out.append(" (");
            match fk {
                Some(f) => {
                    out.append(f.name.as_str());
                    out.append(",");
                    append_comma_join(out, columns);
                    out.append(") VALUES (");
                    append_id_ref(out, f.parent);
                    append_comma_prefixed(out, values);
                },
                None => {
                    append_comma_join(out, columns);
                    out.append(") VALUES (");
                    append_comma_join_lits(out, values);
                },
            }
            out.append(");");
            proof {
                reveal_strlit(",");
                assert(","@ =~= seq![',']);
                assert(out@ =~= old(out)@ + spec_stmt_text(st@));
            }
        },
        SqlStmt::Update { table, pk_col, columns, values, id, fk } => {
            out.append("UPDATE ");
            out.append(table.as_str());
            out.append(" SET ");
            append_assigns(out, columns, values);
            out.append(" WHERE ");
            out.append(pk_col.as_str());
            out.append("=");
            append_id_ref(out, *id);
            match fk {
                Some(f) => {
                    out.append(" AND ");
                    out.append(f.name.as_str());
                    out.append("=");
                    append_id_ref(out, f.parent);
                },
                None => {},
            }
            out.append(";");
            proof {
                assert(out@ =~= old(out)@ + spec_stmt_text(st@));
            }
        },
        SqlStmt::Delete { table, pk_col, id, fk } => {
            out.append("DELETE FROM ");
            out.append(table.as_str());
            out.append(" WHERE ");
            out.append(pk_col.as_str());
            out.append("=");
            append_id_ref(out, *id);
            match fk {
                Some(f) => {
                    out.append(" AND ");
                    out.append(f.name.as_str());
                    out.append("=");
                    append_id_ref(out, f.parent);
                },
                None => {},
            }
            out.append(";");
            proof {
                assert(out@ =~= old(out)@ + spec_stmt_text(st@));
            }
        },
    }
}

/// A statement plan is renderable when every statement's column and value
/// lists agree in length.
pub open spec fn spec_plan_renderable(p: Seq<SqlStmtView>) -> bool {
    forall|i: int|
        0 <= i < p.len() ==> match #[trigger] p[i] {
            SqlStmtView::Update { columns, values, .. } => columns.len() == values.len(),
            _ => true,
        }
}

/// Appends the exact SQL text of a whole plan.
pub fn render_plan(stmts: &Vec<SqlStmt>, out: &mut String)
    requires
        spec_plan_renderable(stmts.deep_view()),
    ensures
        final(out)@ == old(out)@ + spec_plan_text(stmts.deep_view()),
{
    let ghost base = out@;
    let mut i: usize = 0;
    while i < stmts.len()
        invariant
            i <= stmts.len(),
            spec_plan_renderable(stmts.deep_view()),
            out@ == base + spec_plan_text(stmts.deep_view().subrange(0, i as int)),
        decreases stmts.len() - i,
    {
        let ghost pre = stmts.deep_view().subrange(0, i as int);
        let ghost post = stmts.deep_view().subrange(0, i + 1 as int);
        proof {
            let sv = stmts.deep_view()[i as int];
            assert(match sv {
                SqlStmtView::Update { columns, values, .. } => columns.len() == values.len(),
                _ => true,
            });
        }
        render_stmt(&stmts[i], out);
        proof {
            assert(post.drop_last() =~= pre);
            assert(post.last() == stmts@[i as int]@);
            assert(out@ =~= base + spec_plan_text(post));
        }
        i = i + 1;
    }
    proof {
        assert(stmts.deep_view().subrange(0, stmts.len() as int) =~= stmts.deep_view());
        if stmts.len() == 0 {
            assert(out@ =~= base + spec_plan_text(stmts.deep_view()));
        }
    }
}

} // verus!

verus! {

/// The names of the writable (non-read-only) columns, in order.
pub open spec fn spec_writable_cols(cols: Seq<crate::schema::ColumnView>) -> Seq<Seq<char>>
    decreases cols,
{
    if cols.len() == 0 {
        Seq::empty()
    } else {
        spec_writable_cols(cols.drop_last()) + if cols.last().readonly {
            Seq::empty()
        } else {
            seq![cols.last().name]
        }
    }
}

/// The cell values paired with the writable columns, in order.
pub open spec fn spec_writable_vals(
    cols: Seq<crate::schema::ColumnView>,
    vals: Seq<DbValueView>,
) -> Seq<DbValueView>
    decreases cols,
{
    if cols.len() == 0 {
        Seq::empty()
    } else {
        spec_writable_vals(cols.drop_last(), vals.drop_last()) + if cols.last().readonly {
            Seq::empty()
        } else {
            seq![vals.last()]
        }
    }
}

/// How many entities an insert cascade visits: the entity itself when it is
/// new, plus every visited child; an already-identified entity is skipped
/// whole.
pub open spec fn spec_insert_count(e: crate::entity::EntityView) -> nat
    decreases e,
{
    if e.pk is Some {
        0
    } else {
        1 + spec_insert_count_lists(e.children)
    }
}

/// The summed visit counts of a list of child lists.
pub open spec fn spec_insert_count_lists(lists: Seq<Seq<crate::entity::EntityView>>) -> nat
    decreases lists,
{
    if lists.len() == 0 {
        0
    } else {
        spec_insert_count_list(lists[0]) + spec_insert_count_lists(lists.drop_first())
    }
}

/// The summed visit counts of one child list.
pub open spec fn spec_insert_count_list(es: Seq<crate::entity::EntityView>) -> nat
    decreases es,
{
    if es.len() == 0 {
        0
    } else {
        spec_insert_count(es[0]) + spec_insert_count_list(es.drop_first())
    }
}

/// The insert cascade for one entity: nothing when it is already
/// identified; otherwise its own INSERT and id capture under the next
/// synthetic id, then every relation's children in declaration order,
/// each bound to this entity's id. Returns the plan and the counter after
/// the cascade.
pub open spec fn spec_insert_plan(
    s: crate::schema::SchemaView,
    fk: Option<FkRefView>,
    e: crate::entity::EntityView,
    counter: int,
) -> (Seq<SqlStmtView>, int)
    decreases e,
{
    if e.pk is Some {
        (Seq::empty(), counter)
    } else {
        let id = ((counter + 1) as u64);
        let head = seq![
            SqlStmtView::Insert {
                table: s.table,
                columns: spec_writable_cols(s.columns),
                values: spec_writable_vals(s.columns, e.values),
                fk: fk,
            },
            SqlStmtView::SetLastInsertId { id },
        ];
        let sub = spec_insert_plan_lists(s.relations, e.children, id, counter + 1);
        (head + sub.0, sub.1)
    }
}

/// The insert cascades of all relations' child lists, left to right.
pub open spec fn spec_insert_plan_lists(
    rels: Seq<crate::schema::RelationView>,
    lists: Seq<Seq<crate::entity::EntityView>>,
    parent: u64,
    counter: int,
) -> (Seq<SqlStmtView>, int)
    decreases lists,
{
    if lists.len() == 0 || rels.len() == 0 {
        (Seq::empty(), counter)
    } else {
        let first = spec_insert_plan_list(rels[0].schema, rels[0].fk, lists[0], parent, counter);
        let rest = spec_insert_plan_lists(rels.drop_first(), lists.drop_first(), parent, first.1);
        (first.0 + rest.0, rest.1)
    }
}

/// The insert cascades of one child list, left to right.
pub open spec fn spec_insert_plan_list(
    cs: crate::schema::SchemaView,
    fk_name: Seq<char>,
    es: Seq<crate::entity::EntityView>,
    parent: u64,
    counter: int,
) -> (Seq<SqlStmtView>, int)
    decreases es,
{
    if es.len() == 0 {
        (Seq::empty(), counter)
    } else {
        let first = spec_insert_plan(
            cs,
            Some(FkRefView { name: fk_name, parent }),
            es[0],
            counter,
        );
        let rest = spec_insert_plan_list(cs, fk_name, es.drop_first(), parent, first.1);
        (first.0 + rest.0, rest.1)
    }
}

/// The counter after an insert cascade is the counter before plus the
/// number of entities visited.
pub proof fn lemma_insert_plan_next(
    s: crate::schema::SchemaView,
    fk: Option<FkRefView>,
    e: crate::entity::EntityView,
    counter: int,
)
    requires
        crate::entity::spec_conforms(e, s),
    ensures
        spec_insert_plan(s, fk, e, counter).1 == counter + spec_insert_count(e),
    decreases e,
{
    if e.pk is None {
        lemma_insert_plan_lists_next(s.relations, e.children, ((counter + 1) as u64), counter + 1);
    }
}

/// Counter bookkeeping for [`spec_insert_plan_lists`].
pub proof fn lemma_insert_plan_lists_next(
    rels: Seq<crate::schema::RelationView>,
    lists: Seq<Seq<crate::entity::EntityView>>,
    parent: u64,
    counter: int,
)
    requires
        rels.len() == lists.len(),
        crate::entity::spec_conforms_lists(lists, rels),
    ensures
        spec_insert_plan_lists(rels, lists, parent, counter).1 == counter + spec_insert_count_lists(
            lists,
        ),
    decreases lists,
{
    if lists.len() > 0 && rels.len() > 0 {
        lemma_insert_plan_list_next(rels[0].schema, rels[0].fk, lists[0], parent, counter);
        let first = spec_insert_plan_list(rels[0].schema, rels[0].fk, lists[0], parent, counter);
        lemma_insert_plan_lists_next(rels.drop_first(), lists.drop_first(), parent, first.1);
    }
}

/// Counter bookkeeping for [`spec_insert_plan_list`].
pub proof fn lemma_insert_plan_list_next(
    cs: crate::schema::SchemaView,
    fk_name: Seq<char>,
    es: Seq<crate::entity::EntityView>,
    parent: u64,
    counter: int,
)
    requires
        crate::entity::spec_conforms_list(es, cs),
    ensures
        spec_insert_plan_list(cs, fk_name, es, parent, counter).1 == counter
            + spec_insert_count_list(es),
    decreases es,
{
    if es.len() > 0 {
        lemma_insert_plan_next(cs, Some(FkRefView { name: fk_name, parent }), es[0], counter);
        let first = spec_insert_plan(
            cs,
            Some(FkRefView { name: fk_name, parent }),
            es[0],
            counter,
        );
        lemma_insert_plan_list_next(cs, fk_name, es.drop_first(), parent, first.1);
    }
}

} // verus!

verus! {

fn writable(cols: &Vec<crate::schema::Column>, vals: &Vec<DbValue>) -> (r: (
    Vec<String>,
    Vec<DbValue>,
))
    requires
        cols@.len() == vals@.len(),
    ensures
        r.0.deep_view() == spec_writable_cols(crate::schema::spec_col_views(cols@)),
        r.1.deep_view() == spec_writable_vals(
            crate::schema::spec_col_views(cols@),
            vals.deep_view(),
        ),
{
    let mut names: Vec<String> = Vec::new();
    let mut cells: Vec<DbValue> = Vec::new();
    let mut i: usize = 0;
    while i < cols.len()
        invariant
            i <= cols.len(),
            cols@.len() == vals@.len(),
            names.deep_view() == spec_writable_cols(
                crate::schema::spec_col_views(cols@.subrange(0, i as int)),
            ),
            cells.deep_view() == spec_writable_vals(
                crate::schema::spec_col_views(cols@.subrange(0, i as int)),
                vals.deep_view().subrange(0, i as int),
            ),
        decreases cols.len() - i,
    {
        let ghost pre_c = crate::schema::spec_col_views(cols@.subrange(0, i as int));
        let ghost post_c = crate::schema::spec_col_views(cols@.subrange(0, i + 1 as int));
        let ghost pre_v = vals.deep_view().subrange(0, i as int);
        let ghost post_v = vals.deep_view().subrange(0, i + 1 as int);
        proof {
            assert(post_c.drop_last() =~= pre_c);
            assert(post_v.drop_last() =~= pre_v);
            assert(post_c.last() == cols@[i as int]@);
            assert(post_v.last() == vals@[i as int]@);
        }
        if !cols[i].readonly {
            names.push(cols[i].name.clone());
            cells.push(vals[i].clone());
            proof {
                assert(names.deep_view() =~= spec_writable_cols(pre_c) + seq![
                    cols@[i as int]@.name,
                ]);
                assert(cells.deep_view() =~= spec_writable_vals(pre_c, pre_v) + seq![
                    vals@[i as int]@,
                ]);
                assert(names.deep_view() =~= spec_writable_cols(post_c));
                assert(cells.deep_view() =~= spec_writable_vals(post_c, post_v));
            }
        } else {
            proof {
                assert(names.deep_view() =~= spec_writable_cols(post_c));
                assert(cells.deep_view() =~= spec_writable_vals(post_c, post_v));
            }
        }
        i = i + 1;
    }
    proof {
        assert(cols@.subrange(0, cols@.len() as int) =~= cols@);
        assert(vals.deep_view().subrange(0, vals@.len() as int) =~= vals.deep_view());
    }
    (names, cells)
}

/// The foreign-key context an optional name and a parent id make.
pub open spec fn spec_opt_fk(fk_name: Option<&String>, parent: u64) -> Option<FkRefView> {
    match fk_name {
        Some(n) => Some(FkRefView { name: n@, parent }),
        None => None,
    }
}

/// Appends the insert cascade of one entity to the plan; returns the
/// synthetic-id counter after the cascade.
#[verifier::loop_isolation(false)]
fn plan_insert(
    schema: &crate::schema::Schema,
    fk_name: Option<&String>,
    parent: u64,
    data: &crate::entity::Entity,
    out: &mut Vec<SqlStmt>,
    counter: u64,
) -> (next: u64)
    requires
        crate::entity::spec_conforms(data@, schema@),
        counter + spec_insert_count(data@) <= u64::MAX,
    ensures
        final(out).deep_view() == old(out).deep_view() + spec_insert_plan(
            schema@,
            spec_opt_fk(fk_name, parent),
            data@,
            counter as int,
        ).0,
        next as int == spec_insert_plan(
            schema@,
            spec_opt_fk(fk_name, parent),
            data@,
            counter as int,
        ).1,
    decreases *data,
{
    let ghost total = spec_insert_plan(schema@, spec_opt_fk(fk_name, parent), data@, counter as int);
    if data.pk.is_some() {
        proof {
            assert(out.deep_view() =~= old(out).deep_view() + total.0);
        }
        return counter;
    }
    proof {
        lemma_insert_plan_next(schema@, spec_opt_fk(fk_name, parent), data@, counter as int);
    }
    let id = counter + 1;
    let (names, cells) = writable(&schema.columns, &data.values);
    let stmt = SqlStmt::Insert {
        table: schema.table.clone(),
        columns: names,
        values: cells,
        fk: match fk_name {
            Some(n) => Some(FkRef { name: n.clone(), parent }),
            None => None,
        },
    };
    proof {
        assert(schema@.columns =~= crate::schema::spec_col_views(schema.columns@));
        assert(data@.values =~= data.values.deep_view());
        assert(stmt@ =~~= SqlStmtView::Insert {
            table: schema@.table,
            columns: spec_writable_cols(schema@.columns),
            values: spec_writable_vals(schema@.columns, data@.values),
            fk: spec_opt_fk(fk_name, parent),
        });
    }
    out.push(stmt);
    out.push(SqlStmt::SetLastInsertId { id });
    let ghost base = out.deep_view();
    let ghost rels = schema@.relations;
    let ghost lists = data@.children;
    let ghost sub_total = spec_insert_plan_lists(rels, lists, id, id as int);
    proof {
        crate::schema::lemma_rel_views(schema.relations@);
        crate::entity::lemma_entity_lists_views(data.children@);
        assert(base =~~= old(out).deep_view() + seq![
            SqlStmtView::Insert {
                table: schema@.table,
                columns: spec_writable_cols(schema@.columns),
                values: spec_writable_vals(schema@.columns, data@.values),
                fk: spec_opt_fk(fk_name, parent),
            },
            SqlStmtView::SetLastInsertId { id },
        ]);
        lemma_insert_plan_lists_next(rels, lists, id, id as int);
        assert(rels.subrange(0, rels.len() as int) =~= rels);
        assert(lists.subrange(0, lists.len() as int) =~= lists);
    }
    let mut c: u64 = id;
    let mut i: usize = 0;
    while i < schema.relations.len()
        invariant
            i <= schema.relations.len(),
            schema.relations@.len() == rels.len(),
            lists.len() == rels.len(),
            out.deep_view() + spec_insert_plan_lists(
                rels.subrange(i as int, rels.len() as int),
                lists.subrange(i as int, lists.len() as int),
                id,
                c as int,
            ).0 == base + sub_total.0,
            spec_insert_plan_lists(
                rels.subrange(i as int, rels.len() as int),
                lists.subrange(i as int, lists.len() as int),
                id,
                c as int,
            ).1 == sub_total.1,
            crate::entity::spec_conforms_lists(
                lists.subrange(i as int, lists.len() as int),
                rels.subrange(i as int, rels.len() as int),
            ),
            sub_total.1 <= u64::MAX,
            c as int <= sub_total.1,
        decreases schema.relations.len() - i,
    {
        let ghost rels_suf = rels.subrange(i as int, rels.len() as int);
        let ghost lists_suf = lists.subrange(i as int, lists.len() as int);
        let ghost rels_suf2 = rels.subrange(i + 1 as int, rels.len() as int);
        let ghost lists_suf2 = lists.subrange(i + 1 as int, lists.len() as int);
        let ghost list_total = spec_insert_plan_list(
            rels[i as int].schema,
            rels[i as int].fk,
            lists[i as int],
            id,
            c as int,
        );
        proof {
            assert(rels_suf[0] == rels[i as int]);
            assert(lists_suf[0] == lists[i as int]);
            assert(rels_suf.drop_first() =~= rels_suf2);
            assert(lists_suf.drop_first() =~= lists_suf2);
            lemma_insert_plan_list_next(
                rels[i as int].schema,
                rels[i as int].fk,
                lists[i as int],
                id,
                c as int,
            );
            lemma_insert_plan_lists_next(rels_suf2, lists_suf2, id, list_total.1);
        }
        let rel = &schema.relations[i];
        let kids = &data.children[i];
        let ghost list_base = out.deep_view();
        let ghost entry_c = c;
        proof {
            assert(rel@ == rels[i as int]);
            crate::entity::lemma_entity_views(kids@);
            assert(crate::entity::spec_entity_views(kids@) == lists[i as int]);
            assert(lists[i as int].subrange(0, lists[i as int].len() as int) =~= lists[
                i as int
            ]);
        }
        let mut j: usize = 0;
        while j < kids.len()
            invariant
                j <= kids.len(),
                kids@.len() == lists[i as int].len(),
                out.deep_view() + spec_insert_plan_list(
                    rels[i as int].schema,
                    rels[i as int].fk,
                    lists[i as int].subrange(j as int, lists[i as int].len() as int),
                    id,
                    c as int,
                ).0 == list_base + list_total.0,
                spec_insert_plan_list(
                    rels[i as int].schema,
                    rels[i as int].fk,
                    lists[i as int].subrange(j as int, lists[i as int].len() as int),
                    id,
                    c as int,
                ).1 == list_total.1,
                crate::entity::spec_conforms_list(
                    lists[i as int].subrange(j as int, lists[i as int].len() as int),
                    rels[i as int].schema,
                ),
                list_total.1 <= u64::MAX,
                c as int <= list_total.1,
            decreases kids.len() - j,
        {
            let ghost es_suf = lists[i as int].subrange(j as int, lists[i as int].len() as int);
            let ghost es_suf2 = lists[i as int].subrange(
                j + 1 as int,
                lists[i as int].len() as int,
            );
            let ghost child = lists[i as int][j as int];
            let ghost child_plan = spec_insert_plan(
                rels[i as int].schema,
                Some(FkRefView { name: rels[i as int].fk, parent: id }),
                child,
                c as int,
            );
            proof {
                crate::entity::lemma_entity_views(kids@);
                assert(es_suf[0] == child);
                assert(es_suf.drop_first() =~= es_suf2);
                assert(child == crate::entity::spec_entity_view(kids@[j as int]));
                lemma_insert_plan_next(
                    rels[i as int].schema,
                    Some(FkRefView { name: rels[i as int].fk, parent: id }),
                    child,
                    c as int,
                );
                lemma_insert_plan_list_next(
                    rels[i as int].schema,
                    rels[i as int].fk,
                    es_suf2,
                    id,
                    child_plan.1,
                );
                assert(spec_opt_fk(Some(&rel.fk), id) == Some(
                    FkRefView { name: rels[i as int].fk, parent: id },
                ));
            }
            let ghost out_pre = out.deep_view();
            c = plan_insert(&rel.schema, Some(&rel.fk), id, &kids[j], out, c);
            proof {
                assert(out.deep_view() + spec_insert_plan_list(
                    rels[i as int].schema,
                    rels[i as int].fk,
                    es_suf2,
                    id,
                    c as int,
                ).0 =~= out_pre + (child_plan.0 + spec_insert_plan_list(
                    rels[i as int].schema,
                    rels[i as int].fk,
                    es_suf2,
                    id,
                    c as int,
                ).0));
            }
            j = j + 1;
        }
        proof {
            let empty_tail = lists[i as int].subrange(
                lists[i as int].len() as int,
                lists[i as int].len() as int,
            );
            assert(empty_tail =~= Seq::<crate::entity::EntityView>::empty());
            assert(spec_insert_plan_list(
                rels[i as int].schema,
                rels[i as int].fk,
                empty_tail,
                id,
                c as int,
            ).0 =~= Seq::<SqlStmtView>::empty());
            assert(out.deep_view() =~= list_base + list_total.0);
            assert(out.deep_view() + spec_insert_plan_lists(rels_suf2, lists_suf2, id, c as int).0
                =~= list_base + (list_total.0 + spec_insert_plan_lists(
                rels_suf2,
                lists_suf2,
                id,
                c as int,
            ).0));
        }
        i = i + 1;
    }
    proof {
        assert(rels.subrange(rels.len() as int, rels.len() as int) =~= Seq::<
            crate::schema::RelationView,
        >::empty());
        assert(lists.subrange(lists.len() as int, lists.len() as int) =~= Seq::<
            Seq<crate::entity::EntityView>,
        >::empty());
        assert(out.deep_view() =~= old(out).deep_view() + total.0);
    }
    c
}

} // verus!

verus! {

/// How many entities a delete cascade visits: the entity itself when it is
/// identified, plus every visited child; an entity without a key is skipped
/// whole.
pub open spec fn spec_delete_count(e: crate::entity::EntityView) -> nat
    decreases e,
{
    if e.pk is None {
        0
    } else {
        1 + spec_delete_count_lists(e.children)
    }
}

/// The summed delete visit counts of a list of child lists.
pub open spec fn spec_delete_count_lists(lists: Seq<Seq<crate::entity::EntityView>>) -> nat
    decreases lists,
{
    if lists.len() == 0 {
        0
    } else {
        spec_delete_count_list(lists[0]) + spec_delete_count_lists(lists.drop_first())
    }
}

/// The summed delete visit counts of one child list.
pub open spec fn spec_delete_count_list(es: Seq<crate::entity::EntityView>) -> nat
    decreases es,
{
    if es.len() == 0 {
        0
    } else {
        spec_delete_count(es[0]) + spec_delete_count_list(es.drop_first())
    }
}

/// The delete cascade for one entity: nothing when it carries no key;
/// otherwise bind its key to the next synthetic id, delete every relation's
/// children first, and delete the entity itself last.
pub open spec fn spec_delete_plan(
    s: crate::schema::SchemaView,
    fk: Option<FkRefView>,
    e: crate::entity::EntityView,
    counter: int,
) -> (Seq<SqlStmtView>, int)
    decreases e,
{
    match e.pk {
        None => (Seq::empty(), counter),
        Some(pk) => {
            let id = ((counter + 1) as u64);
            let head = seq![SqlStmtView::SetVar { id, pk }];
            let sub = spec_delete_plan_lists(s.relations, e.children, id, counter + 1);
            let tail = seq![
                SqlStmtView::Delete { table: s.table, pk_col: s.pk, id, fk },
            ];
            (head + sub.0 + tail, sub.1)
        },
    }
}

/// The delete cascades of all relations' child lists, left to right.
pub open spec fn spec_delete_plan_lists(
    rels: Seq<crate::schema::RelationView>,
    lists: Seq<Seq<crate::entity::EntityView>>,
    parent: u64,
    counter: int,
) -> (Seq<SqlStmtView>, int)
    decreases lists,
{
    if lists.len() == 0 || rels.len() == 0 {
        (Seq::empty(), counter)
    } else {
        let first = spec_delete_plan_list(rels[0].schema, rels[0].fk, lists[0], parent, counter);
        let rest = spec_delete_plan_lists(rels.drop_first(), lists.drop_first(), parent, first.1);
        (first.0 + rest.0, rest.1)
    }
}

/// The delete cascades of one child list, left to right.
pub open spec fn spec_delete_plan_list(
    cs: crate::schema::SchemaView,
    fk_name: Seq<char>,
    es: Seq<crate::entity::EntityView>,
    parent: u64,
    counter: int,
) -> (Seq<SqlStmtView>, int)
    decreases es,
{
    if es.len() == 0 {
        (Seq::empty(), counter)
    } else {
        let first = spec_delete_plan(
            cs,
            Some(FkRefView { name: fk_name, parent }),
            es[0],
            counter,
        );
        let rest = spec_delete_plan_list(cs, fk_name, es.drop_first(), parent, first.1);
        (first.0 + rest.0, rest.1)
    }
}

/// The counter after a delete cascade is the counter before plus the
/// number of entities visited.
pub proof fn lemma_delete_plan_next(
    s: crate::schema::SchemaView,
    fk: Option<FkRefView>,
    e: crate::entity::EntityView,
    counter: int,
)
    requires
        crate::entity::spec_conforms(e, s),
    ensures
        spec_delete_plan(s, fk, e, counter).1 == counter + spec_delete_count(e),
    decreases e,
{
    if e.pk is Some {
        lemma_delete_plan_lists_next(s.relations, e.children, ((counter + 1) as u64), counter + 1);
    }
}

/// Counter bookkeeping for [`spec_delete_plan_lists`].
pub proof fn lemma_delete_plan_lists_next(
    rels: Seq<crate::schema::RelationView>,
    lists: Seq<Seq<crate::entity::EntityView>>,
    parent: u64,
    counter: int,
)
    requires
        rels.len() == lists.len(),
        crate::entity::spec_conforms_lists(lists, rels),
    ensures
        spec_delete_plan_lists(rels, lists, parent, counter).1 == counter + spec_delete_count_lists(
            lists,
        ),
    decreases lists,
{
    if lists.len() > 0 && rels.len() > 0 {
        lemma_delete_plan_list_next(rels[0].schema, rels[0].fk, lists[0], parent, counter);
        let first = spec_delete_plan_list(rels[0].schema, rels[0].fk, lists[0], parent, counter);
        lemma_delete_plan_lists_next(rels.drop_first(), lists.drop_first(), parent, first.1);
    }
}

/// Counter bookkeeping for [`spec_delete_plan_list`].
pub proof fn lemma_delete_plan_list_next(
    cs: crate::schema::SchemaView,
    fk_name: Seq<char>,
    es: Seq<crate::entity::EntityView>,
    parent: u64,
    counter: int,
)
    requires
        crate::entity::spec_conforms_list(es, cs),
    ensures
        spec_delete_plan_list(cs, fk_name, es, parent, counter).1 == counter
            + spec_delete_count_list(es),
    decreases es,
{
    if es.len() > 0 {
        lemma_delete_plan_next(cs, Some(FkRefView { name: fk_name, parent }), es[0], counter);
        let first = spec_delete_plan(
            cs,
            Some(FkRefView { name: fk_name, parent }),
            es[0],
            counter,
        );
        lemma_delete_plan_list_next(cs, fk_name, es.drop_first(), parent, first.1);
    }
}

/// Appends the delete cascade of one entity to the plan; returns the
/// synthetic-id counter after the cascade.
#[verifier::loop_isolation(false)]
fn plan_delete(
    schema: &crate::schema::Schema,
    fk_name: Option<&String>,
    parent: u64,
    data: &crate::entity::Entity,
    out: &mut Vec<SqlStmt>,
    counter: u64,
) -> (next: u64)
    requires
        crate::entity::spec_conforms(data@, schema@),
        counter + spec_delete_count(data@) <= u64::MAX,
    ensures
        final(out).deep_view() == old(out).deep_view() + spec_delete_plan(
            schema@,
            spec_opt_fk(fk_name, parent),
            data@,
            counter as int,
        ).0,
        next as int == spec_delete_plan(
            schema@,
            spec_opt_fk(fk_name, parent),
            data@,
            counter as int,
        ).1,
    decreases *data,
{
    let ghost total = spec_delete_plan(schema@, spec_opt_fk(fk_name, parent), data@, counter as int);
    let pk = match data.pk {
        Some(pk) => pk,
        None => {
            proof {
                assert(out.deep_view() =~= old(out).deep_view() + total.0);
            }
            return counter;
        },
    };
    proof {
        lemma_delete_plan_next(schema@, spec_opt_fk(fk_name, parent), data@, counter as int);
    }
    let id = counter + 1;
    out.push(SqlStmt::SetVar { id, pk });
    let ghost base = out.deep_view();
    let ghost rels = schema@.relations;
    let ghost lists = data@.children;
    let ghost sub_total = spec_delete_plan_lists(rels, lists, id, id as int);
    proof {
        crate::schema::lemma_rel_views(schema.relations@);
        crate::entity::lemma_entity_lists_views(data.children@);
        assert(base =~~= old(out).deep_view() + seq![SqlStmtView::SetVar { id, pk }]);
        lemma_delete_plan_lists_next(rels, lists, id, id as int);
        assert(rels.subrange(0, rels.len() as int) =~= rels);
        assert(lists.subrange(0, lists.len() as int) =~= lists);
    }
    let mut c: u64 = id;
    let mut i: usize = 0;
    while i < schema.relations.len()
        invariant
            i <= schema.relations.len(),
            schema.relations@.len() == rels.len(),
            lists.len() == rels.len(),
            out.deep_view() + spec_delete_plan_lists(
                rels.subrange(i as int, rels.len() as int),
                lists.subrange(i as int, lists.len() as int),
                id,
                c as int,
            ).0 == base + sub_total.0,
            spec_delete_plan_lists(
                rels.subrange(i as int, rels.len() as int),
                lists.subrange(i as int, lists.len() as int),
                id,
                c as int,
            ).1 == sub_total.1,
            crate::entity::spec_conforms_lists(
                lists.subrange(i as int, lists.len() as int),
                rels.subrange(i as int, rels.len() as int),
            ),
            sub_total.1 <= u64::MAX,
            c as int <= sub_total.1,
        decreases schema.relations.len() - i,
    {
        let ghost rels_suf = rels.subrange(i as int, rels.len() as int);
        let ghost lists_suf = lists.subrange(i as int, lists.len() as int);
        let ghost rels_suf2 = rels.subrange(i + 1 as int, rels.len() as int);
        let ghost lists_suf2 = lists.subrange(i + 1 as int, lists.len() as int);
        let ghost list_total = spec_delete_plan_list(
            rels[i as int].schema,
            rels[i as int].fk,
            lists[i as int],
            id,
            c as int,
        );
        proof {
            assert(rels_suf[0] == rels[i as int]);
            assert(lists_suf[0] == lists[i as int]);
            assert(rels_suf.drop_first() =~= rels_suf2);
            assert(lists_suf.drop_first() =~= lists_suf2);
            lemma_delete_plan_list_next(
                rels[i as int].schema,
                rels[i as int].fk,
                lists[i as int],
                id,
                c as int,
            );
            lemma_delete_plan_lists_next(rels_suf2, lists_suf2, id, list_total.1);
        }
        let rel = &schema.relations[i];
        let kids = &data.children[i];
        let ghost list_base = out.deep_view();
        proof {
            assert(rel@ == rels[i as int]);
            crate::entity::lemma_entity_views(kids@);
            assert(crate::entity::spec_entity_views(kids@) == lists[i as int]);
            assert(lists[i as int].subrange(0, lists[i as int].len() as int) =~= lists[
                i as int
            ]);
        }
        let mut j: usize = 0;
        while j < kids.len()
            invariant
                j <= kids.len(),
                kids@.len() == lists[i as int].len(),
                out.deep_view() + spec_delete_plan_list(
                    rels[i as int].schema,
                    rels[i as int].fk,
                    lists[i as int].subrange(j as int, lists[i as int].len() as int),
                    id,
                    c as int,
                ).0 == list_base + list_total.0,
                spec_delete_plan_list(
                    rels[i as int].schema,
                    rels[i as int].fk,
                    lists[i as int].subrange(j as int, lists[i as int].len() as int),
                    id,
                    c as int,
                ).1 == list_total.1,
                crate::entity::spec_conforms_list(
                    lists[i as int].subrange(j as int, lists[i as int].len() as int),
                    rels[i as int].schema,
                ),
                list_total.1 <= u64::MAX,
                c as int <= list_total.1,
            decreases kids.len() - j,
        {
            let ghost es_suf = lists[i as int].subrange(j as int, lists[i as int].len() as int);
            let ghost es_suf2 = lists[i as int].subrange(
                j + 1 as int,
                lists[i as int].len() as int,
            );
            let ghost child = lists[i as int][j as int];
            let ghost child_plan = spec_delete_plan(
                rels[i as int].schema,
                Some(FkRefView { name: rels[i as int].fk, parent: id }),
                child,
                c as int,
            );
            proof {
                crate::entity::lemma_entity_views(kids@);
                assert(es_suf[0] == child);
                assert(es_suf.drop_first() =~= es_suf2);
                assert(child == crate::entity::spec_entity_view(kids@[j as int]));
                lemma_delete_plan_next(
                    rels[i as int].schema,
                    Some(FkRefView { name: rels[i as int].fk, parent: id }),
                    child,
                    c as int,
                );
                lemma_delete_plan_list_next(
                    rels[i as int].schema,
                    rels[i as int].fk,
                    es_suf2,
                    id,
                    child_plan.1,
                );
                assert(spec_opt_fk(Some(&rel.fk), id) == Some(
                    FkRefView { name: rels[i as int].fk, parent: id },
                ));
            }
            let ghost out_pre = out.deep_view();
            c = plan_delete(&rel.schema, Some(&rel.fk), id, &kids[j], out, c);
            proof {
                assert(out.deep_view() + spec_delete_plan_list(
                    rels[i as int].schema,
                    rels[i as int].fk,
                    es_suf2,
                    id,
                    c as int,
                ).0 =~= out_pre + (child_plan.0 + spec_delete_plan_list(
                    rels[i as int].schema,
                    rels[i as int].fk,
                    es_suf2,
                    id,
                    c as int,
                ).0));
            }
            j = j + 1;
        }
        proof {
            let empty_tail = lists[i as int].subrange(
                lists[i as int].len() as int,
                lists[i as int].len() as int,
            );
            assert(empty_tail =~= Seq::<crate::entity::EntityView>::empty());
            assert(spec_delete_plan_list(
                rels[i as int].schema,
                rels[i as int].fk,
                empty_tail,
                id,
                c as int,
            ).0 =~= Seq::<SqlStmtView>::empty());
            assert(out.deep_view() =~= list_base + list_total.0);
            assert(out.deep_view() + spec_delete_plan_lists(rels_suf2, lists_suf2, id, c as int).0
                =~= list_base + (list_total.0 + spec_delete_plan_lists(
                rels_suf2,
                lists_suf2,
                id,
                c as int,
            ).0));
        }
        i = i + 1;
    }
    proof {
        assert(rels.subrange(rels.len() as int, rels.len() as int) =~= Seq::<
            crate::schema::RelationView,
        >::empty());
        assert(lists.subrange(lists.len() as int, lists.len() as int) =~= Seq::<
            Seq<crate::entity::EntityView>,
        >::empty());
    }
    let ghost pre_push = out.deep_view();
    let tail = SqlStmt::Delete {
        table: schema.table.clone(),
        pk_col: schema.pk.clone(),
        id,
        fk: match fk_name {
            Some(n) => Some(FkRef { name: n.clone(), parent }),
            None => None,
        },
    };
    proof {
        assert(pre_push =~= base + sub_total.0);
        assert(tail@ =~~= SqlStmtView::Delete {
            table: schema@.table,
            pk_col: schema@.pk,
            id,
            fk: spec_opt_fk(fk_name, parent),
        });
    }
    out.push(tail);
    proof {
        assert(out.deep_view() =~= pre_push.push(SqlStmtView::Delete {
            table: schema@.table,
            pk_col: schema@.pk,
            id,
            fk: spec_opt_fk(fk_name, parent),
        }));
        assert(out.deep_view() =~~= old(out).deep_view() + total.0);
    }
    c
}

} // verus!

verus! {

/// The first entity of the list carrying the given primary key.
pub open spec fn spec_find_by_pk(es: Seq<crate::entity::EntityView>, pk: u64) -> Option<
    crate::entity::EntityView,
>
    decreases es,
{
    if es.len() == 0 {
        None
    } else if es[0].pk == Some(pk) {
        Some(es[0])
    } else {
        spec_find_by_pk(es.drop_first(), pk)
    }
}

/// Whether some entity of the list carries the given primary key.
pub open spec fn spec_has_pk(es: Seq<crate::entity::EntityView>, pk: u64) -> bool {
    spec_find_by_pk(es, pk) is Some
}

/// How many entities an update cascade visits.
pub open spec fn spec_update_count(
    new: crate::entity::EntityView,
    old: crate::entity::EntityView,
) -> nat
    decreases new,
{
    if new.pk is None {
        0
    } else {
        1 + spec_update_count_lists(new.children, old.children)
    }
}

/// The summed update visit counts across the paired child-list families.
pub open spec fn spec_update_count_lists(
    news_l: Seq<Seq<crate::entity::EntityView>>,
    olds_l: Seq<Seq<crate::entity::EntityView>>,
) -> nat
    decreases news_l,
{
    if news_l.len() == 0 || olds_l.len() == 0 {
        0
    } else {
        spec_pass_new_count(news_l[0], olds_l[0]) + spec_pass_old_count(news_l[0], olds_l[0])
            + spec_update_count_lists(news_l.drop_first(), olds_l.drop_first())
    }
}

/// Visit counts of the first diff pass: new children are inserted, matched
/// children updated, unmatched identified children skipped.
pub open spec fn spec_pass_new_count(
    news: Seq<crate::entity::EntityView>,
    olds: Seq<crate::entity::EntityView>,
) -> nat
    decreases news,
{
    if news.len() == 0 {
        0
    } else {
        (match news[0].pk {
            None => spec_insert_count(news[0]),
            Some(pk) => match spec_find_by_pk(olds, pk) {
                Some(o) => spec_update_count(news[0], o),
                None => 0,
            },
        }) + spec_pass_new_count(news.drop_first(), olds)
    }
}

/// Visit counts of the second diff pass: old children no new child matches
/// are deleted.
pub open spec fn spec_pass_old_count(
    news: Seq<crate::entity::EntityView>,
    olds: Seq<crate::entity::EntityView>,
) -> nat
    decreases olds,
{
    if olds.len() == 0 {
        0
    } else {
        (if olds[0].pk is Some && spec_has_pk(news, olds[0].pk->Some_0) {
            0
        } else {
            spec_delete_count(olds[0])
        }) + spec_pass_old_count(news, olds.drop_first())
    }
}

/// The update cascade for one entity: nothing when the new graph carries no
/// key; otherwise bind the key to the next synthetic id, update the writable
/// columns (skipped when there are none), then diff each relation's children
/// against the previously loaded ones.
pub open spec fn spec_update_plan(
    s: crate::schema::SchemaView,
    fk: Option<FkRefView>,
    new: crate::entity::EntityView,
    old: crate::entity::EntityView,
    counter: int,
) -> (Seq<SqlStmtView>, int)
    decreases new,
{
    match new.pk {
        None => (Seq::empty(), counter),
        Some(pk) => {
            let id = ((counter + 1) as u64);
            let head = seq![SqlStmtView::SetVar { id, pk }];
            let upd = if spec_writable_cols(s.columns).len() == 0 {
                Seq::<SqlStmtView>::empty()
            } else {
                seq![
                    SqlStmtView::Update {
                        table: s.table,
                        pk_col: s.pk,
                        columns: spec_writable_cols(s.columns),
                        values: spec_writable_vals(s.columns, new.values),
                        id,
                        fk,
                    },
                ]
            };
            let sub = spec_update_plan_lists(
                s.relations,
                new.children,
                old.children,
                id,
                counter + 1,
            );
            (head + upd + sub.0, sub.1)
        },
    }
}

/// The diffs of all relations' child lists, left to right: for each
/// relation, the pass over the new children, then the pass over the old
/// ones.
pub open spec fn spec_update_plan_lists(
    rels: Seq<crate::schema::RelationView>,
    news_l: Seq<Seq<crate::entity::EntityView>>,
    olds_l: Seq<Seq<crate::entity::EntityView>>,
    parent: u64,
    counter: int,
) -> (Seq<SqlStmtView>, int)
    decreases news_l,
{
    if news_l.len() == 0 || olds_l.len() == 0 || rels.len() == 0 {
        (Seq::empty(), counter)
    } else {
        let pn = spec_update_pass_new(
            rels[0].schema,
            rels[0].fk,
            news_l[0],
            olds_l[0],
            parent,
            counter,
        );
        let po = spec_update_pass_old(
            rels[0].schema,
            rels[0].fk,
            news_l[0],
            olds_l[0],
            parent,
            pn.1,
        );
        let rest = spec_update_plan_lists(
            rels.drop_first(),
            news_l.drop_first(),
            olds_l.drop_first(),
            parent,
            po.1,
        );
        (pn.0 + po.0 + rest.0, rest.1)
    }
}

/// The first diff pass: a new child without a key cascades as an insert; one
/// whose key a previously loaded child carries cascades as an update against
/// it; one with an unknown key contributes nothing.
pub open spec fn spec_update_pass_new(
    cs: crate::schema::SchemaView,
    fk_name: Seq<char>,
    news: Seq<crate::entity::EntityView>,
    olds: Seq<crate::entity::EntityView>,
    parent: u64,
    counter: int,
) -> (Seq<SqlStmtView>, int)
    decreases news,
{
    if news.len() == 0 {
        (Seq::empty(), counter)
    } else {
        let fkr = Some(FkRefView { name: fk_name, parent });
        let first = match news[0].pk {
            None => spec_insert_plan(cs, fkr, news[0], counter),
            Some(pk) => match spec_find_by_pk(olds, pk) {
                Some(o) => spec_update_plan(cs, fkr, news[0], o, counter),
                None => (Seq::<SqlStmtView>::empty(), counter),
            },
        };
        let rest = spec_update_pass_new(cs, fk_name, news.drop_first(), olds, parent, first.1);
        (first.0 + rest.0, rest.1)
    }
}

/// The second diff pass: a previously loaded child whose key no new child
/// carries cascades as a delete.
pub open spec fn spec_update_pass_old(
    cs: crate::schema::SchemaView,
    fk_name: Seq<char>,
    news: Seq<crate::entity::EntityView>,
    olds: Seq<crate::entity::EntityView>,
    parent: u64,
    counter: int,
) -> (Seq<SqlStmtView>, int)
    decreases olds,
{
    if olds.len() == 0 {
        (Seq::empty(), counter)
    } else {
        let fkr = Some(FkRefView { name: fk_name, parent });
        let first = if olds[0].pk is Some && spec_has_pk(news, olds[0].pk->Some_0) {
            (Seq::<SqlStmtView>::empty(), counter)
        } else {
            spec_delete_plan(cs, fkr, olds[0], counter)
        };
        let rest = spec_update_pass_old(cs, fk_name, news, olds.drop_first(), parent, first.1);
        (first.0 + rest.0, rest.1)
    }
}

/// An entity the find returns is one of the list.
pub proof fn lemma_find_by_pk_member(es: Seq<crate::entity::EntityView>, pk: u64)
    ensures
        match spec_find_by_pk(es, pk) {
            Some(o) => exists|k: int| 0 <= k < es.len() && es[k] == o && o.pk == Some(pk),
            None => true,
        },
    decreases es,
{
    if es.len() > 0 && !(es[0].pk == Some(pk)) {
        lemma_find_by_pk_member(es.drop_first(), pk);
        if spec_find_by_pk(es, pk) is Some {
            let o = spec_find_by_pk(es, pk)->Some_0;
            let k = choose|k: int|
                0 <= k < es.drop_first().len() && es.drop_first()[k] == o && o.pk == Some(pk);
            assert(es[k + 1] == o);
        }
    }
}

/// The counter after an update cascade is the counter before plus the
/// number of entities visited.
pub proof fn lemma_update_plan_next(
    s: crate::schema::SchemaView,
    fk: Option<FkRefView>,
    new: crate::entity::EntityView,
    old: crate::entity::EntityView,
    counter: int,
)
    requires
        crate::entity::spec_conforms(new, s),
        crate::entity::spec_conforms(old, s),
    ensures
        spec_update_plan(s, fk, new, old, counter).1 == counter + spec_update_count(new, old),
    decreases new,
{
    if new.pk is Some {
        lemma_update_plan_lists_next(
            s.relations,
            new.children,
            old.children,
            ((counter + 1) as u64),
            counter + 1,
        );
    }
}

/// Counter bookkeeping for [`spec_update_plan_lists`].
pub proof fn lemma_update_plan_lists_next(
    rels: Seq<crate::schema::RelationView>,
    news_l: Seq<Seq<crate::entity::EntityView>>,
    olds_l: Seq<Seq<crate::entity::EntityView>>,
    parent: u64,
    counter: int,
)
    requires
        rels.len() == news_l.len(),
        rels.len() == olds_l.len(),
        crate::entity::spec_conforms_lists(news_l, rels),
        crate::entity::spec_conforms_lists(olds_l, rels),
    ensures
        spec_update_plan_lists(rels, news_l, olds_l, parent, counter).1 == counter
            + spec_update_count_lists(news_l, olds_l),
    decreases news_l,
{
    if news_l.len() > 0 && olds_l.len() > 0 && rels.len() > 0 {
        lemma_update_pass_new_next(
            rels[0].schema,
            rels[0].fk,
            news_l[0],
            olds_l[0],
            parent,
            counter,
        );
        let pn = spec_update_pass_new(
            rels[0].schema,
            rels[0].fk,
            news_l[0],
            olds_l[0],
            parent,
            counter,
        );
        lemma_update_pass_old_next(rels[0].schema, rels[0].fk, news_l[0], olds_l[0], parent, pn.1);
        let po = spec_update_pass_old(
            rels[0].schema,
            rels[0].fk,
            news_l[0],
            olds_l[0],
            parent,
            pn.1,
        );
        lemma_update_plan_lists_next(
            rels.drop_first(),
            news_l.drop_first(),
            olds_l.drop_first(),
            parent,
            po.1,
        );
    }
}

/// Counter bookkeeping for [`spec_update_pass_new`].
pub proof fn lemma_update_pass_new_next(
    cs: crate::schema::SchemaView,
    fk_name: Seq<char>,
    news: Seq<crate::entity::EntityView>,
    olds: Seq<crate::entity::EntityView>,
    parent: u64,
    counter: int,
)
    requires
        crate::entity::spec_conforms_list(news, cs),
        crate::entity::spec_conforms_list(olds, cs),
    ensures
        spec_update_pass_new(cs, fk_name, news, olds, parent, counter).1 == counter
            + spec_pass_new_count(news, olds),
    decreases news,
{
    if news.len() > 0 {
        let fkr = Some(FkRefView { name: fk_name, parent });
        match news[0].pk {
            None => {
                lemma_insert_plan_next(cs, fkr, news[0], counter);
            },
            Some(pk) => {
                lemma_find_by_pk_member(olds, pk);
                match spec_find_by_pk(olds, pk) {
                    Some(o) => {
                        let k = choose|k: int| 0 <= k < olds.len() && olds[k] == o && o.pk == Some(
                            pk,
                        );
                        crate::entity::lemma_conforms_list_index(olds, cs, k);
                        lemma_update_plan_next(cs, fkr, news[0], o, counter);
                    },
                    None => {},
                }
            },
        }
        let first = match news[0].pk {
            None => spec_insert_plan(cs, fkr, news[0], counter),
            Some(pk) => match spec_find_by_pk(olds, pk) {
                Some(o) => spec_update_plan(cs, fkr, news[0], o, counter),
                None => (Seq::<SqlStmtView>::empty(), counter),
            },
        };
        lemma_update_pass_new_next(cs, fk_name, news.drop_first(), olds, parent, first.1);
    }
}

/// Counter bookkeeping for [`spec_update_pass_old`].
pub proof fn lemma_update_pass_old_next(
    cs: crate::schema::SchemaView,
    fk_name: Seq<char>,
    news: Seq<crate::entity::EntityView>,
    olds: Seq<crate::entity::EntityView>,
    parent: u64,
    counter: int,
)
    requires
        crate::entity::spec_conforms_list(olds, cs),
    ensures
        spec_update_pass_old(cs, fk_name, news, olds, parent, counter).1 == counter
            + spec_pass_old_count(news, olds),
    decreases olds,
{
    if olds.len() > 0 {
        let fkr = Some(FkRefView { name: fk_name, parent });
        if !(olds[0].pk is Some && spec_has_pk(news, olds[0].pk->Some_0)) {
            lemma_delete_plan_next(cs, fkr, olds[0], counter);
        }
        let first = if olds[0].pk is Some && spec_has_pk(news, olds[0].pk->Some_0) {
            (Seq::<SqlStmtView>::empty(), counter)
        } else {
            spec_delete_plan(cs, fkr, olds[0], counter)
        };
        lemma_update_pass_old_next(cs, fk_name, news, olds.drop_first(), parent, first.1);
    }
}

} // verus!

verus! {

/// Finds the first child carrying the given primary key.
#[verifier::loop_isolation(false)]
fn find_by_pk<'a>(es: &'a Vec<crate::entity::Entity>, pk: u64) -> (r: Option<
    &'a crate::entity::Entity,
>)
    ensures
        match r {
            Some(e) => spec_find_by_pk(crate::entity::spec_entity_views(es@), pk) == Some(e@),
            None => spec_find_by_pk(crate::entity::spec_entity_views(es@), pk) is None,
        },
{
    let ghost views = crate::entity::spec_entity_views(es@);
    proof {
        crate::entity::lemma_entity_views(es@);
        assert(views.subrange(0, views.len() as int) =~= views);
    }
    let mut i: usize = 0;
    while i < es.len()
        invariant
            i <= es.len(),
            spec_find_by_pk(views, pk) == spec_find_by_pk(
                views.subrange(i as int, views.len() as int),
                pk,
            ),
        decreases es.len() - i,
    {
        let ghost suf = views.subrange(i as int, views.len() as int);
        proof {
            assert(suf[0] == views[i as int]);
            assert(suf.drop_first() =~= views.subrange(i + 1 as int, views.len() as int));
        }
        let hit = match es[i].pk {
            Some(p) => p == pk,
            None => false,
        };
        if hit {
            return Some(&es[i]);
        }
        i = i + 1;
    }
    proof {
        assert(views.subrange(views.len() as int, views.len() as int) =~= Seq::<
            crate::entity::EntityView,
        >::empty());
    }
    None
}

/// Whether some child carries the given primary key.
fn has_pk(es: &Vec<crate::entity::Entity>, pk: u64) -> (r: bool)
    ensures
        r == spec_has_pk(crate::entity::spec_entity_views(es@), pk),
{
    match find_by_pk(es, pk) {
        Some(_) => true,
        None => false,
    }
}

/// Appends the update cascade of one entity (diffed against its previously
/// loaded version) to the plan; returns the synthetic-id counter after the
/// cascade.
#[verifier::loop_isolation(false)]
#[verifier::rlimit(100)]
fn plan_update(
    schema: &crate::schema::Schema,
    fk_name: Option<&String>,
    parent: u64,
    new_data: &crate::entity::Entity,
    old_data: &crate::entity::Entity,
    out: &mut Vec<SqlStmt>,
    counter: u64,
) -> (next: u64)
    requires
        crate::entity::spec_conforms(new_data@, schema@),
        crate::entity::spec_conforms(old_data@, schema@),
        counter + spec_update_count(new_data@, old_data@) <= u64::MAX,
    ensures
        final(out).deep_view() == old(out).deep_view() + spec_update_plan(
            schema@,
            spec_opt_fk(fk_name, parent),
            new_data@,
            old_data@,
            counter as int,
        ).0,
        next as int == spec_update_plan(
            schema@,
            spec_opt_fk(fk_name, parent),
            new_data@,
            old_data@,
            counter as int,
        ).1,
    decreases *new_data,
{
    let ghost total = spec_update_plan(
        schema@,
        spec_opt_fk(fk_name, parent),
        new_data@,
        old_data@,
        counter as int,
    );
    let pk = match new_data.pk {
        Some(pk) => pk,
        None => {
            proof {
                assert(out.deep_view() =~= old(out).deep_view() + total.0);
            }
            return counter;
        },
    };
    proof {
        lemma_update_plan_next(
            schema@,
            spec_opt_fk(fk_name, parent),
            new_data@,
            old_data@,
            counter as int,
        );
    }
    let id = counter + 1;
    out.push(SqlStmt::SetVar { id, pk });
    let (names, cells) = writable(&schema.columns, &new_data.values);
    proof {
        assert(schema@.columns =~= crate::schema::spec_col_views(schema.columns@));
        assert(new_data@.values =~= new_data.values.deep_view());
    }
    if names.len() > 0 {
        let stmt = SqlStmt::Update {
            table: schema.table.clone(),
            pk_col: schema.pk.clone(),
            columns: names,
            values: cells,
            id,
            fk: match fk_name {
                Some(n) => Some(FkRef { name: n.clone(), parent }),
                None => None,
            },
        };
        proof {
            assert(stmt@ =~~= SqlStmtView::Update {
                table: schema@.table,
                pk_col: schema@.pk,
                columns: spec_writable_cols(schema@.columns),
                values: spec_writable_vals(schema@.columns, new_data@.values),
                id,
                fk: spec_opt_fk(fk_name, parent),
            });
        }
        out.push(stmt);
    }
    let ghost base = out.deep_view();
    let ghost rels = schema@.relations;
    let ghost news_l = new_data@.children;
    let ghost olds_l = old_data@.children;
    let ghost sub_total = spec_update_plan_lists(rels, news_l, olds_l, id, id as int);
    proof {
        crate::schema::lemma_rel_views(schema.relations@);
        crate::entity::lemma_entity_lists_views(new_data.children@);
        crate::entity::lemma_entity_lists_views(old_data.children@);
        if spec_writable_cols(schema@.columns).len() == 0 {
            assert(base =~~= old(out).deep_view() + (seq![
                SqlStmtView::SetVar { id, pk },
            ] + Seq::<SqlStmtView>::empty()));
        } else {
            assert(base =~~= old(out).deep_view() + (seq![SqlStmtView::SetVar { id, pk }] + seq![
                SqlStmtView::Update {
                    table: schema@.table,
                    pk_col: schema@.pk,
                    columns: spec_writable_cols(schema@.columns),
                    values: spec_writable_vals(schema@.columns, new_data@.values),
                    id,
                    fk: spec_opt_fk(fk_name, parent),
                },
            ]));
        }
        lemma_update_plan_lists_next(rels, news_l, olds_l, id, id as int);
        assert(rels.subrange(0, rels.len() as int) =~= rels);
        assert(news_l.subrange(0, news_l.len() as int) =~= news_l);
        assert(olds_l.subrange(0, olds_l.len() as int) =~= olds_l);
    }
    let mut c: u64 = id;
    let mut i: usize = 0;
    while i < schema.relations.len()
        invariant
            i <= schema.relations.len(),
            schema.relations@.len() == rels.len(),
            news_l.len() == rels.len(),
            olds_l.len() == rels.len(),
            out.deep_view() + spec_update_plan_lists(
                rels.subrange(i as int, rels.len() as int),
                news_l.subrange(i as int, news_l.len() as int),
                olds_l.subrange(i as int, olds_l.len() as int),
                id,
                c as int,
            ).0 == base + sub_total.0,
            spec_update_plan_lists(
                rels.subrange(i as int, rels.len() as int),
                news_l.subrange(i as int, news_l.len() as int),
                olds_l.subrange(i as int, olds_l.len() as int),
                id,
                c as int,
            ).1 == sub_total.1,
            crate::entity::spec_conforms_lists(
                news_l.subrange(i as int, news_l.len() as int),
                rels.subrange(i as int, rels.len() as int),
            ),
            crate::entity::spec_conforms_lists(
                olds_l.subrange(i as int, olds_l.len() as int),
                rels.subrange(i as int, rels.len() as int),
            ),
            sub_total.1 <= u64::MAX,
            c as int <= sub_total.1,
        decreases schema.relations.len() - i,
    {
        let ghost rels_suf = rels.subrange(i as int, rels.len() as int);
        let ghost rels_suf2 = rels.subrange(i + 1 as int, rels.len() as int);
        let ghost news_suf2 = news_l.subrange(i + 1 as int, news_l.len() as int);
        let ghost olds_suf2 = olds_l.subrange(i + 1 as int, olds_l.len() as int);
        let ghost pn_total = spec_update_pass_new(
            rels[i as int].schema,
            rels[i as int].fk,
            news_l[i as int],
            olds_l[i as int],
            id,
            c as int,
        );
        proof {
            assert(rels_suf[0] == rels[i as int]);
            assert(news_l.subrange(i as int, news_l.len() as int)[0] == news_l[i as int]);
            assert(olds_l.subrange(i as int, olds_l.len() as int)[0] == olds_l[i as int]);
            assert(rels_suf.drop_first() =~= rels_suf2);
            assert(news_l.subrange(i as int, news_l.len() as int).drop_first() =~= news_suf2);
            assert(olds_l.subrange(i as int, olds_l.len() as int).drop_first() =~= olds_suf2);
            lemma_update_pass_new_next(
                rels[i as int].schema,
                rels[i as int].fk,
                news_l[i as int],
                olds_l[i as int],
                id,
                c as int,
            );
            lemma_update_pass_old_next(
                rels[i as int].schema,
                rels[i as int].fk,
                news_l[i as int],
                olds_l[i as int],
                id,
                pn_total.1,
            );
            lemma_update_plan_lists_next(
                rels_suf2,
                news_suf2,
                olds_suf2,
                id,
                spec_update_pass_old(
                    rels[i as int].schema,
                    rels[i as int].fk,
                    news_l[i as int],
                    olds_l[i as int],
                    id,
                    pn_total.1,
                ).1,
            );
        }
        let rel = &schema.relations[i];
        let kids_new = &new_data.children[i];
        let kids_old = &old_data.children[i];
        let ghost pn_base = out.deep_view();
        proof {
            assert(rel@ == rels[i as int]);
            crate::entity::lemma_entity_views(kids_new@);
            crate::entity::lemma_entity_views(kids_old@);
            assert(crate::entity::spec_entity_views(kids_new@) == news_l[i as int]);
            assert(crate::entity::spec_entity_views(kids_old@) == olds_l[i as int]);
            assert(news_l[i as int].subrange(0, news_l[i as int].len() as int) =~= news_l[
                i as int
            ]);
        }
        let mut j: usize = 0;
        while j < kids_new.len()
            invariant
                j <= kids_new.len(),
                kids_new@.len() == news_l[i as int].len(),
                out.deep_view() + spec_update_pass_new(
                    rels[i as int].schema,
                    rels[i as int].fk,
                    news_l[i as int].subrange(j as int, news_l[i as int].len() as int),
                    olds_l[i as int],
                    id,
                    c as int,
                ).0 == pn_base + pn_total.0,
                spec_update_pass_new(
                    rels[i as int].schema,
                    rels[i as int].fk,
                    news_l[i as int].subrange(j as int, news_l[i as int].len() as int),
                    olds_l[i as int],
                    id,
                    c as int,
                ).1 == pn_total.1,
                crate::entity::spec_conforms_list(
                    news_l[i as int].subrange(j as int, news_l[i as int].len() as int),
                    rels[i as int].schema,
                ),
                pn_total.1 <= u64::MAX,
                c as int <= pn_total.1,
            decreases kids_new.len() - j,
        {
            let ghost es_suf = news_l[i as int].subrange(
                j as int,
                news_l[i as int].len() as int,
            );
            let ghost es_suf2 = news_l[i as int].subrange(
                j + 1 as int,
                news_l[i as int].len() as int,
            );
            let ghost child = news_l[i as int][j as int];
            let ghost fkr = Some(FkRefView { name: rels[i as int].fk, parent: id });
            let ghost child_plan = (match child.pk {
                None => spec_insert_plan(rels[i as int].schema, fkr, child, c as int),
                Some(cpk) => match spec_find_by_pk(olds_l[i as int], cpk) {
                    Some(o) => spec_update_plan(rels[i as int].schema, fkr, child, o, c as int),
                    None => (Seq::<SqlStmtView>::empty(), c as int),
                },
            });
            proof {
                assert(es_suf[0] == child);
                assert(es_suf.drop_first() =~= es_suf2);
                assert(child == crate::entity::spec_entity_view(kids_new@[j as int]));
                assert(spec_opt_fk(Some(&rel.fk), id) == fkr);
                match child.pk {
                    None => {
                        lemma_insert_plan_next(rels[i as int].schema, fkr, child, c as int);
                    },
                    Some(cpk) => {
                        lemma_find_by_pk_member(olds_l[i as int], cpk);
                        match spec_find_by_pk(olds_l[i as int], cpk) {
                            Some(o) => {
                                let k = choose|k: int|
                                    0 <= k < olds_l[i as int].len() && olds_l[i as int][k] == o
                                        && o.pk == Some(cpk);
                                crate::entity::lemma_conforms_list_index(
                                    olds_l[i as int],
                                    rels[i as int].schema,
                                    k,
                                );
                                lemma_update_plan_next(
                                    rels[i as int].schema,
                                    fkr,
                                    child,
                                    o,
                                    c as int,
                                );
                            },
                            None => {},
                        }
                    },
                }
                lemma_update_pass_new_next(
                    rels[i as int].schema,
                    rels[i as int].fk,
                    es_suf2,
                    olds_l[i as int],
                    id,
                    child_plan.1,
                );
            }
            let ghost out_pre = out.deep_view();
            match kids_new[j].pk {
                None => {
                    c = plan_insert(&rel.schema, Some(&rel.fk), id, &kids_new[j], out, c);
                },
                Some(cpk) => {
                    match find_by_pk(kids_old, cpk) {
                        Some(o_ref) => {
                            c = plan_update(
                                &rel.schema,
                                Some(&rel.fk),
                                id,
                                &kids_new[j],
                                o_ref,
                                out,
                                c,
                            );
                        },
                        None => {},
                    }
                },
            }
            proof {
                assert(out.deep_view() =~= out_pre + child_plan.0);
                assert(out.deep_view() + spec_update_pass_new(
                    rels[i as int].schema,
                    rels[i as int].fk,
                    es_suf2,
                    olds_l[i as int],
                    id,
                    c as int,
                ).0 =~= out_pre + (child_plan.0 + spec_update_pass_new(
                    rels[i as int].schema,
                    rels[i as int].fk,
                    es_suf2,
                    olds_l[i as int],
                    id,
                    c as int,
                ).0));
            }
            j = j + 1;
        }
        let ghost po_total = spec_update_pass_old(
            rels[i as int].schema,
            rels[i as int].fk,
            news_l[i as int],
            olds_l[i as int],
            id,
            c as int,
        );
        let ghost po_base = out.deep_view();
        proof {
            let empty_tail = news_l[i as int].subrange(
                news_l[i as int].len() as int,
                news_l[i as int].len() as int,
            );
            assert(empty_tail =~= Seq::<crate::entity::EntityView>::empty());
            assert(spec_update_pass_new(
                rels[i as int].schema,
                rels[i as int].fk,
                empty_tail,
                olds_l[i as int],
                id,
                c as int,
            ).0 =~= Seq::<SqlStmtView>::empty());
            assert(po_base =~= pn_base + pn_total.0);
            assert(c as int == pn_total.1);
            assert(olds_l[i as int].subrange(0, olds_l[i as int].len() as int) =~= olds_l[
                i as int
            ]);
        }
        let mut k: usize = 0;
        while k < kids_old.len()
            invariant
                k <= kids_old.len(),
                kids_old@.len() == olds_l[i as int].len(),
                out.deep_view() + spec_update_pass_old(
                    rels[i as int].schema,
                    rels[i as int].fk,
                    news_l[i as int],
                    olds_l[i as int].subrange(k as int, olds_l[i as int].len() as int),
                    id,
                    c as int,
                ).0 == po_base + po_total.0,
                spec_update_pass_old(
                    rels[i as int].schema,
                    rels[i as int].fk,
                    news_l[i as int],
                    olds_l[i as int].subrange(k as int, olds_l[i as int].len() as int),
                    id,
                    c as int,
                ).1 == po_total.1,
                crate::entity::spec_conforms_list(
                    olds_l[i as int].subrange(k as int, olds_l[i as int].len() as int),
                    rels[i as int].schema,
                ),
                po_total.1 <= u64::MAX,
                c as int <= po_total.1,
            decreases kids_old.len() - k,
        {
            let ghost os_suf = olds_l[i as int].subrange(
                k as int,
                olds_l[i as int].len() as int,
            );
            let ghost os_suf2 = olds_l[i as int].subrange(
                k + 1 as int,
                olds_l[i as int].len() as int,
            );
            let ghost old_child = olds_l[i as int][k as int];
            let ghost fkr = Some(FkRefView { name: rels[i as int].fk, parent: id });
            let ghost child_plan = (if old_child.pk is Some && spec_has_pk(
                news_l[i as int],
                old_child.pk->Some_0,
            ) {
                (Seq::<SqlStmtView>::empty(), c as int)
            } else {
                spec_delete_plan(rels[i as int].schema, fkr, old_child, c as int)
            });
            proof {
                assert(os_suf[0] == old_child);
                assert(os_suf.drop_first() =~= os_suf2);
                assert(old_child == crate::entity::spec_entity_view(kids_old@[k as int]));
                assert(spec_opt_fk(Some(&rel.fk), id) == fkr);
                if !(old_child.pk is Some && spec_has_pk(news_l[i as int], old_child.pk->Some_0)) {
                    lemma_delete_plan_next(rels[i as int].schema, fkr, old_child, c as int);
                }
                lemma_update_pass_old_next(
                    rels[i as int].schema,
                    rels[i as int].fk,
                    news_l[i as int],
                    os_suf2,
                    id,
                    child_plan.1,
                );
            }
            let ghost out_pre = out.deep_view();
            let keep = match kids_old[k].pk {
                Some(p) => has_pk(kids_new, p),
                None => false,
            };
            if !keep {
                c = plan_delete(&rel.schema, Some(&rel.fk), id, &kids_old[k], out, c);
            }
            proof {
                assert(out.deep_view() =~= out_pre + child_plan.0);
                assert(out.deep_view() + spec_update_pass_old(
                    rels[i as int].schema,
                    rels[i as int].fk,
                    news_l[i as int],
                    os_suf2,
                    id,
                    c as int,
                ).0 =~= out_pre + (child_plan.0 + spec_update_pass_old(
                    rels[i as int].schema,
                    rels[i as int].fk,
                    news_l[i as int],
                    os_suf2,
                    id,
                    c as int,
                ).0));
            }
            k = k + 1;
        }
        proof {
            let empty_tail = olds_l[i as int].subrange(
                olds_l[i as int].len() as int,
                olds_l[i as int].len() as int,
            );
            assert(empty_tail =~= Seq::<crate::entity::EntityView>::empty());
            assert(spec_update_pass_old(
                rels[i as int].schema,
                rels[i as int].fk,
                news_l[i as int],
                empty_tail,
                id,
                c as int,
            ).0 =~= Seq::<SqlStmtView>::empty());
            assert(out.deep_view() =~= po_base + po_total.0);
            assert(out.deep_view() + spec_update_plan_lists(
                rels_suf2,
                news_suf2,
                olds_suf2,
                id,
                c as int,
            ).0 =~= pn_base + (pn_total.0 + (po_total.0 + spec_update_plan_lists(
                rels_suf2,
                news_suf2,
                olds_suf2,
                id,
                c as int,
            ).0)));
            assert(pn_total.0 + (po_total.0 + spec_update_plan_lists(
                rels_suf2,
                news_suf2,
                olds_suf2,
                id,
                c as int,
            ).0) =~= (pn_total.0 + po_total.0) + spec_update_plan_lists(
                rels_suf2,
                news_suf2,
                olds_suf2,
                id,
                c as int,
            ).0);
        }
        i = i + 1;
    }
    proof {
        assert(rels.subrange(rels.len() as int, rels.len() as int) =~= Seq::<
            crate::schema::RelationView,
        >::empty());
        assert(news_l.subrange(news_l.len() as int, news_l.len() as int) =~= Seq::<
            Seq<crate::entity::EntityView>,
        >::empty());
        assert(olds_l.subrange(olds_l.len() as int, olds_l.len() as int) =~= Seq::<
            Seq<crate::entity::EntityView>,
        >::empty());
        assert(out.deep_view() =~~= old(out).deep_view() + total.0);
    }
    c
}

} // verus!

verus! {

/// Renderability survives concatenation.
pub proof fn lemma_renderable_concat(a: Seq<SqlStmtView>, b: Seq<SqlStmtView>)
    requires
        spec_plan_renderable(a),
        spec_plan_renderable(b),
    ensures
        spec_plan_renderable(a + b),
{
    assert forall|i: int| 0 <= i < (a + b).len() implies match #[trigger] (a + b)[i] {
        SqlStmtView::Update { columns, values, .. } => columns.len() == values.len(),
        _ => true,
    } by {
        if i < a.len() {
            assert((a + b)[i] == a[i]);
        } else {
            assert((a + b)[i] == b[i - a.len()]);
        }
    }
}

/// As many writable columns as writable values, when the cell list matches
/// the column list.
pub proof fn lemma_writable_lens(cols: Seq<crate::schema::ColumnView>, vals: Seq<DbValueView>)
    requires
        cols.len() == vals.len(),
    ensures
        spec_writable_cols(cols).len() == spec_writable_vals(cols, vals).len(),
    decreases cols,
{
    if cols.len() > 0 {
        lemma_writable_lens(cols.drop_last(), vals.drop_last());
    }
}

/// An insert cascade renders: it holds no UPDATE statements.
pub proof fn lemma_insert_plan_renderable(
    s: crate::schema::SchemaView,
    fk: Option<FkRefView>,
    e: crate::entity::EntityView,
    counter: int,
)
    ensures
        spec_plan_renderable(spec_insert_plan(s, fk, e, counter).0),
    decreases e,
{
    if e.pk is None {
        let id = ((counter + 1) as u64);
        let head = seq![
            SqlStmtView::Insert {
                table: s.table,
                columns: spec_writable_cols(s.columns),
                values: spec_writable_vals(s.columns, e.values),
                fk: fk,
            },
            SqlStmtView::SetLastInsertId { id },
        ];
        assert(spec_plan_renderable(head));
        lemma_insert_plan_lists_renderable(s.relations, e.children, id, counter + 1);
        lemma_renderable_concat(
            head,
            spec_insert_plan_lists(s.relations, e.children, id, counter + 1).0,
        );
    } else {
        assert(spec_plan_renderable(Seq::<SqlStmtView>::empty()));
    }
}

/// Renderability of [`spec_insert_plan_lists`].
pub proof fn lemma_insert_plan_lists_renderable(
    rels: Seq<crate::schema::RelationView>,
    lists: Seq<Seq<crate::entity::EntityView>>,
    parent: u64,
    counter: int,
)
    ensures
        spec_plan_renderable(spec_insert_plan_lists(rels, lists, parent, counter).0),
    decreases lists,
{
    if lists.len() == 0 || rels.len() == 0 {
        assert(spec_plan_renderable(Seq::<SqlStmtView>::empty()));
    } else {
        let first = spec_insert_plan_list(rels[0].schema, rels[0].fk, lists[0], parent, counter);
        lemma_insert_plan_list_renderable(rels[0].schema, rels[0].fk, lists[0], parent, counter);
        lemma_insert_plan_lists_renderable(rels.drop_first(), lists.drop_first(), parent, first.1);
        lemma_renderable_concat(
            first.0,
            spec_insert_plan_lists(rels.drop_first(), lists.drop_first(), parent, first.1).0,
        );
    }
}

/// Renderability of [`spec_insert_plan_list`].
pub proof fn lemma_insert_plan_list_renderable(
    cs: crate::schema::SchemaView,
    fk_name: Seq<char>,
    es: Seq<crate::entity::EntityView>,
    parent: u64,
    counter: int,
)
    ensures
        spec_plan_renderable(spec_insert_plan_list(cs, fk_name, es, parent, counter).0),
    decreases es,
{
    if es.len() == 0 {
        assert(spec_plan_renderable(Seq::<SqlStmtView>::empty()));
    } else {
        let fkr = Some(FkRefView { name: fk_name, parent });
        let first = spec_insert_plan(cs, fkr, es[0], counter);
        lemma_insert_plan_renderable(cs, fkr, es[0], counter);
        lemma_insert_plan_list_renderable(cs, fk_name, es.drop_first(), parent, first.1);
        lemma_renderable_concat(
            first.0,
            spec_insert_plan_list(cs, fk_name, es.drop_first(), parent, first.1).0,
        );
    }
}

/// A delete cascade renders: it holds no UPDATE statements.
pub proof fn lemma_delete_plan_renderable(
    s: crate::schema::SchemaView,
    fk: Option<FkRefView>,
    e: crate::entity::EntityView,
    counter: int,
)
    ensures
        spec_plan_renderable(spec_delete_plan(s, fk, e, counter).0),
    decreases e,
{
    match e.pk {
        None => {
            assert(spec_plan_renderable(Seq::<SqlStmtView>::empty()));
        },
        Some(pk) => {
            let id = ((counter + 1) as u64);
            let head = seq![SqlStmtView::SetVar { id, pk }];
            let sub = spec_delete_plan_lists(s.relations, e.children, id, counter + 1);
            let tail = seq![
                SqlStmtView::Delete { table: s.table, pk_col: s.pk, id, fk },
            ];
            assert(spec_plan_renderable(head));
            assert(spec_plan_renderable(tail));
            lemma_delete_plan_lists_renderable(s.relations, e.children, id, counter + 1);
            lemma_renderable_concat(head, sub.0);
            lemma_renderable_concat(head + sub.0, tail);
        },
    }
}

/// Renderability of [`spec_delete_plan_lists`].
pub proof fn lemma_delete_plan_lists_renderable(
    rels: Seq<crate::schema::RelationView>,
    lists: Seq<Seq<crate::entity::EntityView>>,
    parent: u64,
    counter: int,
)
    ensures
        spec_plan_renderable(spec_delete_plan_lists(rels, lists, parent, counter).0),
    decreases lists,
{
    if lists.len() == 0 || rels.len() == 0 {
        assert(spec_plan_renderable(Seq::<SqlStmtView>::empty()));
    } else {
        let first = spec_delete_plan_list(rels[0].schema, rels[0].fk, lists[0], parent, counter);
        lemma_delete_plan_list_renderable(rels[0].schema, rels[0].fk, lists[0], parent, counter);
        lemma_delete_plan_lists_renderable(rels.drop_first(), lists.drop_first(), parent, first.1);
        lemma_renderable_concat(
            first.0,
            spec_delete_plan_lists(rels.drop_first(), lists.drop_first(), parent, first.1).0,
        );
    }
}

/// Renderability of [`spec_delete_plan_list`].
pub proof fn lemma_delete_plan_list_renderable(
    cs: crate::schema::SchemaView,
    fk_name: Seq<char>,
    es: Seq<crate::entity::EntityView>,
    parent: u64,
    counter: int,
)
    ensures
        spec_plan_renderable(spec_delete_plan_list(cs, fk_name, es, parent, counter).0),
    decreases es,
{
    if es.len() == 0 {
        assert(spec_plan_renderable(Seq::<SqlStmtView>::empty()));
    } else {
        let fkr = Some(FkRefView { name: fk_name, parent });
        let first = spec_delete_plan(cs, fkr, es[0], counter);
        lemma_delete_plan_renderable(cs, fkr, es[0], counter);
        lemma_delete_plan_list_renderable(cs, fk_name, es.drop_first(), parent, first.1);
        lemma_renderable_concat(
            first.0,
            spec_delete_plan_list(cs, fk_name, es.drop_first(), parent, first.1).0,
        );
    }
}

/// An update cascade renders: its UPDATE statements pair each writable
/// column with one cell value.
pub proof fn lemma_update_plan_renderable(
    s: crate::schema::SchemaView,
    fk: Option<FkRefView>,
    new: crate::entity::EntityView,
    old: crate::entity::EntityView,
    counter: int,
)
    requires
        crate::entity::spec_conforms(new, s),
    ensures
        spec_plan_renderable(spec_update_plan(s, fk, new, old, counter).0),
    decreases new,
{
    match new.pk {
        None => {
            assert(spec_plan_renderable(Seq::<SqlStmtView>::empty()));
        },
        Some(pk) => {
            let id = ((counter + 1) as u64);
            let head = seq![SqlStmtView::SetVar { id, pk }];
            lemma_writable_lens(s.columns, new.values);
            let upd = if spec_writable_cols(s.columns).len() == 0 {
                Seq::<SqlStmtView>::empty()
            } else {
                seq![
                    SqlStmtView::Update {
                        table: s.table,
                        pk_col: s.pk,
                        columns: spec_writable_cols(s.columns),
                        values: spec_writable_vals(s.columns, new.values),
                        id,
                        fk,
                    },
                ]
            };
            assert(spec_plan_renderable(head));
            assert(spec_plan_renderable(upd));
            let sub = spec_update_plan_lists(s.relations, new.children, old.children, id, counter
                + 1);
            lemma_update_plan_lists_renderable(
                s.relations,
                new.children,
                old.children,
                id,
                counter + 1,
            );
            lemma_renderable_concat(head, upd);
            lemma_renderable_concat(head + upd, sub.0);
        },
    }
}

/// Renderability of [`spec_update_plan_lists`].
pub proof fn lemma_update_plan_lists_renderable(
    rels: Seq<crate::schema::RelationView>,
    news_l: Seq<Seq<crate::entity::EntityView>>,
    olds_l: Seq<Seq<crate::entity::EntityView>>,
    parent: u64,
    counter: int,
)
    requires
        crate::entity::spec_conforms_lists(news_l, rels),
    ensures
        spec_plan_renderable(spec_update_plan_lists(rels, news_l, olds_l, parent, counter).0),
    decreases news_l,
{
    if news_l.len() == 0 || olds_l.len() == 0 || rels.len() == 0 {
        assert(spec_plan_renderable(Seq::<SqlStmtView>::empty()));
    } else {
        let pn = spec_update_pass_new(
            rels[0].schema,
            rels[0].fk,
            news_l[0],
            olds_l[0],
            parent,
            counter,
        );
        let po = spec_update_pass_old(
            rels[0].schema,
            rels[0].fk,
            news_l[0],
            olds_l[0],
            parent,
            pn.1,
        );
        lemma_update_pass_new_renderable(
            rels[0].schema,
            rels[0].fk,
            news_l[0],
            olds_l[0],
            parent,
            counter,
        );
        lemma_update_pass_old_renderable(
            rels[0].schema,
            rels[0].fk,
            news_l[0],
            olds_l[0],
            parent,
            pn.1,
        );
        lemma_update_plan_lists_renderable(
            rels.drop_first(),
            news_l.drop_first(),
            olds_l.drop_first(),
            parent,
            po.1,
        );
        let rest = spec_update_plan_lists(
            rels.drop_first(),
            news_l.drop_first(),
            olds_l.drop_first(),
            parent,
            po.1,
        );
        lemma_renderable_concat(pn.0, po.0);
        lemma_renderable_concat(pn.0 + po.0, rest.0);
    }
}

/// Renderability of [`spec_update_pass_new`].
pub proof fn lemma_update_pass_new_renderable(
    cs: crate::schema::SchemaView,
    fk_name: Seq<char>,
    news: Seq<crate::entity::EntityView>,
    olds: Seq<crate::entity::EntityView>,
    parent: u64,
    counter: int,
)
    requires
        crate::entity::spec_conforms_list(news, cs),
    ensures
        spec_plan_renderable(spec_update_pass_new(cs, fk_name, news, olds, parent, counter).0),
    decreases news,
{
    if news.len() == 0 {
        assert(spec_plan_renderable(Seq::<SqlStmtView>::empty()));
    } else {
        let fkr = Some(FkRefView { name: fk_name, parent });
        match news[0].pk {
            None => {
                lemma_insert_plan_renderable(cs, fkr, news[0], counter);
            },
            Some(pk) => {
                match spec_find_by_pk(olds, pk) {
                    Some(o) => {
                        lemma_update_plan_renderable(cs, fkr, news[0], o, counter);
                    },
                    None => {
                        assert(spec_plan_renderable(Seq::<SqlStmtView>::empty()));
                    },
                }
            },
        }
        let first = match news[0].pk {
            None => spec_insert_plan(cs, fkr, news[0], counter),
            Some(pk) => match spec_find_by_pk(olds, pk) {
                Some(o) => spec_update_plan(cs, fkr, news[0], o, counter),
                None => (Seq::<SqlStmtView>::empty(), counter),
            },
        };
        lemma_update_pass_new_renderable(cs, fk_name, news.drop_first(), olds, parent, first.1);
        lemma_renderable_concat(
            first.0,
            spec_update_pass_new(cs, fk_name, news.drop_first(), olds, parent, first.1).0,
        );
    }
}

/// Renderability of [`spec_update_pass_old`].
pub proof fn lemma_update_pass_old_renderable(
    cs: crate::schema::SchemaView,
    fk_name: Seq<char>,
    news: Seq<crate::entity::EntityView>,
    olds: Seq<crate::entity::EntityView>,
    parent: u64,
    counter: int,
)
    ensures
        spec_plan_renderable(spec_update_pass_old(cs, fk_name, news, olds, parent, counter).0),
    decreases olds,
{
    if olds.len() == 0 {
        assert(spec_plan_renderable(Seq::<SqlStmtView>::empty()));
    } else {
        let fkr = Some(FkRefView { name: fk_name, parent });
        let first = if olds[0].pk is Some && spec_has_pk(news, olds[0].pk->Some_0) {
            (Seq::<SqlStmtView>::empty(), counter)
        } else {
            spec_delete_plan(cs, fkr, olds[0], counter)
        };
        if !(olds[0].pk is Some && spec_has_pk(news, olds[0].pk->Some_0)) {
            lemma_delete_plan_renderable(cs, fkr, olds[0], counter);
        } else {
            assert(spec_plan_renderable(Seq::<SqlStmtView>::empty()));
        }
        lemma_update_pass_old_renderable(cs, fk_name, news, olds.drop_first(), parent, first.1);
        lemma_renderable_concat(
            first.0,
            spec_update_pass_old(cs, fk_name, news, olds.drop_first(), parent, first.1).0,
        );
    }
}

} // verus!

verus! {

/// The foreign-key context of a public entry point.
pub open spec fn spec_fk_context(fk: Option<&str>, parent: u64) -> Option<FkRefView> {
    match fk {
        Some(n) => Some(FkRefView { name: n@, parent }),
        None => None,
    }
}

/// The batch text an insert cascade emits.
pub open spec fn spec_insert_sql(
    s: crate::schema::SchemaView,
    fk: Option<FkRefView>,
    e: crate::entity::EntityView,
    this_id: int,
) -> Seq<char> {
    spec_plan_text(spec_insert_plan(s, fk, e, this_id).0)
}

/// The batch text an update cascade emits.
pub open spec fn spec_update_sql(
    s: crate::schema::SchemaView,
    fk: Option<FkRefView>,
    new: crate::entity::EntityView,
    old: crate::entity::EntityView,
    this_id: int,
) -> Seq<char> {
    spec_plan_text(spec_update_plan(s, fk, new, old, this_id).0)
}

/// The batch text a delete cascade emits.
pub open spec fn spec_delete_sql(
    s: crate::schema::SchemaView,
    fk: Option<FkRefView>,
    e: crate::entity::EntityView,
    this_id: int,
) -> Seq<char> {
    spec_plan_text(spec_delete_plan(s, fk, e, this_id).0)
}

fn fk_owned(fk: Option<&str>) -> (r: Option<String>)
    ensures
        match (fk, r) {
            (Some(n), Some(o)) => o@ == n@,
            (None, None) => true,
            _ => false,
        },
{
    match fk {
        Some(n) => Some(n.to_owned()),
        None => None,
    }
}

/// Appends to `query` the multi-statement batch that inserts the whole
/// entity graph `data`, assigning synthetic ids upward from `this_id`;
/// returns the id counter after the cascade. An entity whose primary key is
/// already set is skipped together with its children. When `fk` names a
/// foreign-key column, the emitted INSERT binds it to `@id_<this_id>`.
pub fn prepare_insert(
    schema: &crate::schema::Schema,
    fk: Option<&str>,
    data: &crate::entity::Entity,
    query: &mut String,
    this_id: u64,
) -> (next: u64)
    requires
        crate::entity::spec_conforms(data@, schema@),
        this_id + spec_insert_count(data@) <= u64::MAX,
    ensures
        final(query)@ == old(query)@ + spec_insert_sql(
            schema@,
            spec_fk_context(fk, this_id),
            data@,
            this_id as int,
        ),
        next as int == this_id + spec_insert_count(data@),
{
    let owned = fk_owned(fk);
    let owned_ref = owned.as_ref();
    let mut plan: Vec<SqlStmt> = Vec::new();
    let next = plan_insert(schema, owned_ref, this_id, data, &mut plan, this_id);
    proof {
        assert(spec_opt_fk(owned_ref, this_id) == spec_fk_context(fk, this_id));
        lemma_insert_plan_next(schema@, spec_fk_context(fk, this_id), data@, this_id as int);
        lemma_insert_plan_renderable(schema@, spec_fk_context(fk, this_id), data@, this_id as int);
        assert(plan.deep_view() =~= spec_insert_plan(
            schema@,
            spec_fk_context(fk, this_id),
            data@,
            this_id as int,
        ).0);
    }
    render_plan(&plan, query);
    next
}

/// Appends to `query` the multi-statement batch that updates the entity
/// graph `new_data`, diffing its children against the previously loaded
/// `old_data` by primary key; returns the id counter after the cascade. A
/// new graph whose primary key is unset emits nothing.
pub fn prepare_update(
    schema: &crate::schema::Schema,
    fk: Option<&str>,
    new_data: &crate::entity::Entity,
    old_data: &crate::entity::Entity,
    query: &mut String,
    this_id: u64,
) -> (next: u64)
    requires
        crate::entity::spec_conforms(new_data@, schema@),
        crate::entity::spec_conforms(old_data@, schema@),
        this_id + spec_update_count(new_data@, old_data@) <= u64::MAX,
    ensures
        final(query)@ == old(query)@ + spec_update_sql(
            schema@,
            spec_fk_context(fk, this_id),
            new_data@,
            old_data@,
            this_id as int,
        ),
        next as int == this_id + spec_update_count(new_data@, old_data@),
{
    let owned = fk_owned(fk);
    let owned_ref = owned.as_ref();
    let mut plan: Vec<SqlStmt> = Vec::new();
    let next = plan_update(schema, owned_ref, this_id, new_data, old_data, &mut plan, this_id);
    proof {
        assert(spec_opt_fk(owned_ref, this_id) == spec_fk_context(fk, this_id));
        lemma_update_plan_next(
            schema@,
            spec_fk_context(fk, this_id),
            new_data@,
            old_data@,
            this_id as int,
        );
        lemma_update_plan_renderable(
            schema@,
            spec_fk_context(fk, this_id),
            new_data@,
            old_data@,
            this_id as int,
        );
        assert(plan.deep_view() =~= spec_update_plan(
            schema@,
            spec_fk_context(fk, this_id),
            new_data@,
            old_data@,
            this_id as int,
        ).0);
    }
    render_plan(&plan, query);
    next
}

/// Appends to `query` the multi-statement batch that deletes the whole
/// entity graph `data`, children before parents; returns the id counter
/// after the cascade. An entity whose primary key is unset emits nothing.
pub fn prepare_delete(
    schema: &crate::schema::Schema,
    fk: Option<&str>,
    data: &crate::entity::Entity,
    query: &mut String,
    this_id: u64,
) -> (next: u64)
    requires
        crate::entity::spec_conforms(data@, schema@),
        this_id + spec_delete_count(data@) <= u64::MAX,
    ensures
        final(query)@ == old(query)@ + spec_delete_sql(
            schema@,
            spec_fk_context(fk, this_id),
            data@,
            this_id as int,
        ),
        next as int == this_id + spec_delete_count(data@),
{
    let owned = fk_owned(fk);
    let owned_ref = owned.as_ref();
    let mut plan: Vec<SqlStmt> = Vec::new();
    let next = plan_delete(schema, owned_ref, this_id, data, &mut plan, this_id);
    proof {
        assert(spec_opt_fk(owned_ref, this_id) == spec_fk_context(fk, this_id));
        lemma_delete_plan_next(schema@, spec_fk_context(fk, this_id), data@, this_id as int);
        lemma_delete_plan_renderable(schema@, spec_fk_context(fk, this_id), data@, this_id as int);
        assert(plan.deep_view() =~= spec_delete_plan(
            schema@,
            spec_fk_context(fk, this_id),
            data@,
            this_id as int,
        ).0);
    }
    render_plan(&plan, query);
    next
}

/// The whole batch an insert round sends: the cascade from a fresh counter,
/// then a SELECT of the root's captured key, so that executing the batch
/// reports the database-assigned id back.
pub open spec fn spec_insert_batch_sql(
    s: crate::schema::SchemaView,
    e: crate::entity::EntityView,
) -> Seq<char> {
    spec_insert_sql(s, None, e, 0) + "SELECT @id_1;"@
}

/// Builds the full insert batch for one entity graph: the cascade's
/// statements, then `SELECT @id_1;` to report the root's generated key.
pub fn insert_batch_sql(schema: &crate::schema::Schema, data: &crate::entity::Entity) -> (r:
    String)
    requires
        crate::entity::spec_conforms(data@, schema@),
        spec_insert_count(data@) <= u64::MAX,
    ensures
        r@ == spec_insert_batch_sql(schema@, data@),
{
    let mut query = String::new();
    prepare_insert(schema, None, data, &mut query, 0);
    query.append("SELECT @id_1;");
    proof {
        assert(query@ =~= spec_insert_batch_sql(schema@, data@));
    }
    query
}

} // verus!

verus! {

/// `n` parameter placeholders, comma-separated.
pub open spec fn spec_placeholders(n: nat) -> Seq<char>
    decreases n,
{
    if n == 0 {
        Seq::empty()
    } else if n == 1 {
        "?"@
    } else {
        spec_placeholders((n - 1) as nat) + ",?"@
    }
}

/// The parameterized INSERT for one row of a table: every writable column,
/// one placeholder per column.
pub open spec fn spec_insert_param_sql(s: crate::schema::SchemaView) -> Seq<char> {
    "INSERT INTO "@ + s.table + " ("@ + spec_comma_join(spec_writable_cols(s.columns))
        + ") VALUES ("@ + spec_placeholders(spec_writable_cols(s.columns).len()) + ");"@
}

/// The parameterized INSERT for child rows: the foreign-key column first,
/// then every writable column, one placeholder per listed column.
pub open spec fn spec_insert_param_sql_with_fk(
    s: crate::schema::SchemaView,
    fk: Seq<char>,
) -> Seq<char> {
    "INSERT INTO "@ + s.table + " ("@ + fk + ","@ + spec_comma_join(spec_writable_cols(s.columns))
        + ") VALUES ("@ + spec_placeholders(spec_writable_cols(s.columns).len() + 1) + ");"@
}

/// One parameter row per new child: the parent's key first, then the
/// child's writable cells; children that already carry a key are skipped.
pub open spec fn spec_insert_param_rows(
    cols: Seq<crate::schema::ColumnView>,
    es: Seq<crate::entity::EntityView>,
    fk_value: u64,
) -> Seq<Seq<DbValueView>>
    decreases es,
{
    if es.len() == 0 {
        Seq::empty()
    } else {
        let rest = spec_insert_param_rows(cols, es.drop_first(), fk_value);
        if es[0].pk is None {
            seq![seq![DbValueView::UInt(fk_value)] + spec_writable_vals(cols, es[0].values)] + rest
        } else {
            rest
        }
    }
}

fn writable_names(cols: &Vec<crate::schema::Column>) -> (r: Vec<String>)
    ensures
        r.deep_view() == spec_writable_cols(crate::schema::spec_col_views(cols@)),
{
    let mut names: Vec<String> = Vec::new();
    let mut i: usize = 0;
    while i < cols.len()
        invariant
            i <= cols.len(),
            names.deep_view() == spec_writable_cols(
                crate::schema::spec_col_views(cols@.subrange(0, i as int)),
            ),
        decreases cols.len() - i,
    {
        let ghost pre = crate::schema::spec_col_views(cols@.subrange(0, i as int));
        let ghost post = crate::schema::spec_col_views(cols@.subrange(0, i + 1 as int));
        proof {
            assert(post.drop_last() =~= pre);
            assert(post.last() == cols@[i as int]@);
        }
        if !cols[i].readonly {
            names.push(cols[i].name.clone());
            proof {
                assert(names.deep_view() =~= spec_writable_cols(pre) + seq![
                    cols@[i as int]@.name,
                ]);
                assert(names.deep_view() =~= spec_writable_cols(post));
            }
        } else {
            proof {
                assert(names.deep_view() =~= spec_writable_cols(post));
            }
        }
        i = i + 1;
    }
    proof {
        assert(cols@.subrange(0, cols@.len() as int) =~= cols@);
    }
    names
}

fn append_placeholders(out: &mut String, n: usize)
    ensures
        final(out)@ == old(out)@ + spec_placeholders(n as nat),
{
    let ghost base = out@;
    let mut i: usize = 0;
    while i < n
        invariant
            i <= n,
            out@ == base + spec_placeholders(i as nat),
        decreases n - i,
    {
        if i == 0 {
            out.append("?");
        } else {
            out.append(",?");
        }
        proof {
            assert(out@ =~= base + spec_placeholders((i + 1) as nat));
        }
        i = i + 1;
    }
}

/// Builds the parameterized single-row INSERT for a table.
pub fn insert_param_sql(schema: &crate::schema::Schema) -> (r: String)
    ensures
        r@ == spec_insert_param_sql(schema@),
{
    let names = writable_names(&schema.columns);
    let mut q = String::new();
    q.append("INSERT INTO ");
    q.append(schema.table.as_str());
    q.append(" (");
    append_comma_join(&mut q, &names);
    q.append(") VALUES (");
    append_placeholders(&mut q, names.len());
    q.append(");");
    proof {
        assert(schema@.columns =~= crate::schema::spec_col_views(schema.columns@));
        assert(names.deep_view().len() == names@.len());
        assert(q@ =~= spec_insert_param_sql(schema@));
    }
    q
}

/// Builds the parameterized INSERT that binds child rows to a parent key.
#[verifier::loop_isolation(false)]
pub fn insert_param_sql_with_fk(schema: &crate::schema::Schema, fk: &str) -> (r: String)
    ensures
        r@ == spec_insert_param_sql_with_fk(schema@, fk@),
{
    let names = writable_names(&schema.columns);
    let mut q = String::new();
    q.append("INSERT INTO ");
    q.append(schema.table.as_str());
    q.append(" (");
    q.append(fk);
    q.append(",");
    append_comma_join(&mut q, &names);
    q.append(") VALUES (");
    let ghost base2 = q@;
    q.append("?");
    proof {
        assert(q@ =~= base2 + spec_placeholders(1));
    }
    let mut j: usize = 0;
    while j < names.len()
        invariant
            j <= names.len(),
            q@ == base2 + spec_placeholders((j + 1) as nat),
        decreases names.len() - j,
    {
        q.append(",?");
        proof {
            assert(q@ =~= base2 + spec_placeholders((j + 2) as nat));
        }
        j = j + 1;
    }
    q.append(");");
    proof {
        reveal_strlit(",");
        assert(","@ =~= seq![',']);
        assert(schema@.columns =~= crate::schema::spec_col_views(schema.columns@));
        assert(names.deep_view().len() == names@.len());
        assert(q@ =~= spec_insert_param_sql_with_fk(schema@, fk@));
    }
    q
}

/// Extracts the parameter rows for the new children of one relation: the
/// parent's key, then each writable cell, one row per child without a key.
#[verifier::loop_isolation(false)]
pub fn insert_param_rows(
    schema: &crate::schema::Schema,
    children: &Vec<crate::entity::Entity>,
    fk_value: u64,
) -> (r: Vec<Vec<DbValue>>)
    requires
        crate::entity::spec_conforms_list(
            crate::entity::spec_entity_views(children@),
            schema@,
        ),
    ensures
        r.deep_view() == spec_insert_param_rows(
            schema@.columns,
            crate::entity::spec_entity_views(children@),
            fk_value,
        ),
{
    let ghost views = crate::entity::spec_entity_views(children@);
    let ghost total = spec_insert_param_rows(schema@.columns, views, fk_value);
    proof {
        crate::entity::lemma_entity_views(children@);
        assert(views.subrange(0, views.len() as int) =~= views);
    }
    let mut out: Vec<Vec<DbValue>> = Vec::new();
    let mut i: usize = 0;
    while i < children.len()
        invariant
            i <= children.len(),
            children@.len() == views.len(),
            out.deep_view() + spec_insert_param_rows(
                schema@.columns,
                views.subrange(i as int, views.len() as int),
                fk_value,
            ) == total,
            crate::entity::spec_conforms_list(
                views.subrange(i as int, views.len() as int),
                schema@,
            ),
        decreases children.len() - i,
    {
        let ghost suf = views.subrange(i as int, views.len() as int);
        let ghost suf2 = views.subrange(i + 1 as int, views.len() as int);
        proof {
            crate::entity::lemma_entity_views(children@);
            assert(suf[0] == views[i as int]);
            assert(suf[0] == crate::entity::spec_entity_view(children@[i as int]));
            assert(suf.drop_first() =~= suf2);
            crate::entity::lemma_conforms_list_index(suf, schema@, 0);
            assert(views[i as int].values.len() == schema@.columns.len());
        }
        if children[i].pk.is_none() {
            let (_, cells) = writable(&schema.columns, &children[i].values);
            let mut row: Vec<DbValue> = Vec::new();
            row.push(DbValue::UInt(fk_value));
            let mut cells = cells;
            row.append(&mut cells);
            proof {
                assert(schema@.columns =~= crate::schema::spec_col_views(schema.columns@));
                assert(crate::entity::spec_entity_view(children@[i as int]).values =~= children@[
                    i as int
                ].values.deep_view());
                assert(row.deep_view() =~= seq![DbValueView::UInt(fk_value)] + spec_writable_vals(
                    schema@.columns,
                    views[i as int].values,
                ));
            }
            let ghost out_pre = out.deep_view();
            out.push(row);
            proof {
                assert(out.deep_view() =~= out_pre + seq![
                    seq![DbValueView::UInt(fk_value)] + spec_writable_vals(
                        schema@.columns,
                        views[i as int].values,
                    ),
                ]);
                assert(out.deep_view() + spec_insert_param_rows(schema@.columns, suf2, fk_value)
                    =~= out_pre + (seq![
                    seq![DbValueView::UInt(fk_value)] + spec_writable_vals(
                        schema@.columns,
                        views[i as int].values,
                    ),
                ] + spec_insert_param_rows(schema@.columns, suf2, fk_value)));
            }
        }
        i = i + 1;
    }
    proof {
        assert(views.subrange(views.len() as int, views.len() as int) =~= Seq::<
            crate::entity::EntityView,
        >::empty());
        assert(out.deep_view() =~= total);
    }
    out
}

} // verus!
