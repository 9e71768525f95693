//! Properties the library guarantees across its functions: the escaping
//! round trip, synthetic-id assignment, the shape of update diffs, read
//! determinism, and the materializer's grouping of ordered row streams back
//! into entity trees.

use vstd::prelude::*;
use crate::values::{
    DbValueView, spec_escape, spec_escape_char, spec_text_literal,
};

verus! {

/// The character an escape pair denotes, if the pair is one the escaper
/// emits.
pub open spec fn spec_unescape_char(c: char) -> Option<char> {
    if c == '0' {
        Some('\u{0}')
    } else if c == 'n' {
        Some('\n')
    } else if c == 'r' {
        Some('\r')
    } else if c == 'Z' {
        Some('\u{1a}')
    } else if c == '\\' {
        Some('\\')
    } else if c == '\'' {
        Some('\'')
    } else if c == '"' {
        Some('"')
    } else {
        None
    }
}

/// A SQL literal parser for the quoted body: backslash pairs are unescaped,
/// a bare quote or a dangling backslash refuses the text.
pub open spec fn spec_parse_body(u: Seq<char>) -> Option<Seq<char>>
    decreases u.len(),
{
    if u.len() == 0 {
        Some(Seq::empty())
    } else if u[0] == '\\' {
        if u.len() >= 2 {
            match spec_unescape_char(u[1]) {
                Some(c) => match spec_parse_body(u.subrange(2, u.len() as int)) {
                    Some(r) => Some(seq![c] + r),
                    None => None,
                },
                None => None,
            }
        } else {
            None
        }
    } else if u[0] == '\'' {
        None
    } else {
        match spec_parse_body(u.drop_first()) {
            Some(r) => Some(seq![u[0]] + r),
            None => None,
        }
    }
}

/// A SQL literal parser: a single-quoted text whose body parses.
pub open spec fn spec_parse_literal(t: Seq<char>) -> Option<Seq<char>> {
    if t.len() >= 2 && t[0] == '\'' && t.last() == '\'' {
        spec_parse_body(t.subrange(1, t.len() - 1))
    } else {
        None
    }
}

/// Parsing an escaped body yields exactly the original text.
pub proof fn lemma_escape_parse(s: Seq<char>)
    ensures
        spec_parse_body(spec_escape(s)) == Some(s),
    decreases s.len(),
{
    if s.len() == 0 {
        assert(spec_escape(s) =~= Seq::<char>::empty());
        assert(Seq::<char>::empty() =~= s);
    } else {
        lemma_escape_parse(s.drop_first());
        let c = s[0];
        let e0 = spec_escape_char(c);
        let full = spec_escape(s);
        assert(full == e0 + spec_escape(s.drop_first()));
        if c == '\u{0}' || c == '\n' || c == '\r' || c == '\\' || c == '\'' || c == '"' || c
            == '\u{1a}' {
            assert(e0.len() == 2 && e0[0] == '\\');
            assert(full[0] == '\\');
            assert(full[1] == e0[1]);
            assert(spec_unescape_char(full[1]) == Some(c));
            assert(full.subrange(2, full.len() as int) =~= spec_escape(s.drop_first()));
            assert(seq![c] + s.drop_first() =~= s);
        } else {
            assert(e0 =~= seq![c]);
            assert(full[0] == c);
            assert(full[0] != '\\' && full[0] != '\'');
            assert(full.drop_first() =~= spec_escape(s.drop_first()));
            assert(seq![c] + s.drop_first() =~= s);
        }
    }
}

/// Escaping round trip: the quoted literal the escaper emits for any text,
/// parsed back by the SQL literal parser, yields exactly that text.
pub proof fn lemma_literal_round_trip(s: Seq<char>)
    ensures
        spec_parse_literal(spec_text_literal(s)) == Some(s),
{
    let t = spec_text_literal(s);
    assert(t.len() >= 2);
    assert(t[0] == '\'');
    assert(t.last() == '\'');
    assert(t.subrange(1, t.len() - 1) =~= spec_escape(s));
    lemma_escape_parse(s);
}

} // verus!

verus! {

/// How many INSERT statements a plan holds.
pub open spec fn spec_count_inserts(p: Seq<crate::mutation::SqlStmtView>) -> int
    decreases p,
{
    if p.len() == 0 {
        0
    } else {
        spec_count_inserts(p.drop_last()) + (if p.last() is Insert {
            1int
        } else {
            0int
        })
    }
}

/// How many UPDATE statements a plan holds.
pub open spec fn spec_count_updates(p: Seq<crate::mutation::SqlStmtView>) -> int
    decreases p,
{
    if p.len() == 0 {
        0
    } else {
        spec_count_updates(p.drop_last()) + (if p.last() is Update {
            1int
        } else {
            0int
        })
    }
}

/// How many DELETE statements a plan holds.
pub open spec fn spec_count_deletes(p: Seq<crate::mutation::SqlStmtView>) -> int
    decreases p,
{
    if p.len() == 0 {
        0
    } else {
        spec_count_deletes(p.drop_last()) + (if p.last() is Delete {
            1int
        } else {
            0int
        })
    }
}

/// Statement counts sum across plan concatenation.
pub proof fn lemma_counts_concat(a: Seq<crate::mutation::SqlStmtView>, b: Seq<crate::mutation::SqlStmtView>)
    ensures
        spec_count_inserts(a + b) == spec_count_inserts(a) + spec_count_inserts(b),
        spec_count_updates(a + b) == spec_count_updates(a) + spec_count_updates(b),
        spec_count_deletes(a + b) == spec_count_deletes(a) + spec_count_deletes(b),
    decreases b.len(),
{
    if b.len() == 0 {
        assert(a + b =~= a);
    } else {
        assert((a + b).drop_last() =~= a + b.drop_last());
        assert((a + b).last() == b.last());
        lemma_counts_concat(a, b.drop_last());
    }
}

/// Synthetic id scoping: inserting a parent with two new children assigns
/// three synthetic ids in pre-order — the parent gets `base + 1`, the
/// children `base + 2` and `base + 3` — and each child's INSERT references
/// the parent's id as its foreign-key value.
pub proof fn lemma_insert_two_children_ids(
    s: crate::schema::SchemaView,
    fk: Option<crate::mutation::FkRefView>,
    e: crate::entity::EntityView,
    a: crate::entity::EntityView,
    b: crate::entity::EntityView,
    base: int,
)
    requires
        s.relations.len() == 1,
        s.relations[0].schema.relations.len() == 0,
        e.pk is None,
        a.pk is None,
        b.pk is None,
        a.children.len() == 0,
        b.children.len() == 0,
        e.children == seq![seq![a, b]],
        0 <= base,
        base + 3 <= u64::MAX,
    ensures
        crate::mutation::spec_insert_plan(s, fk, e, base).0 == seq![
            crate::mutation::SqlStmtView::Insert {
                table: s.table,
                columns: crate::mutation::spec_writable_cols(s.columns),
                values: crate::mutation::spec_writable_vals(s.columns, e.values),
                fk: fk,
            },
            crate::mutation::SqlStmtView::SetLastInsertId { id: (base + 1) as u64 },
            crate::mutation::SqlStmtView::Insert {
                table: s.relations[0].schema.table,
                columns: crate::mutation::spec_writable_cols(s.relations[0].schema.columns),
                values: crate::mutation::spec_writable_vals(s.relations[0].schema.columns, a.values),
                fk: Some(
                    crate::mutation::FkRefView {
                        name: s.relations[0].fk,
                        parent: (base + 1) as u64,
                    },
                ),
            },
            crate::mutation::SqlStmtView::SetLastInsertId { id: (base + 2) as u64 },
            crate::mutation::SqlStmtView::Insert {
                table: s.relations[0].schema.table,
                columns: crate::mutation::spec_writable_cols(s.relations[0].schema.columns),
                values: crate::mutation::spec_writable_vals(s.relations[0].schema.columns, b.values),
                fk: Some(
                    crate::mutation::FkRefView {
                        name: s.relations[0].fk,
                        parent: (base + 1) as u64,
                    },
                ),
            },
            crate::mutation::SqlStmtView::SetLastInsertId { id: (base + 3) as u64 },
        ],
        crate::mutation::spec_insert_plan(s, fk, e, base).1 == base + 3,
{
    reveal_with_fuel(crate::mutation::spec_insert_plan, 3);
    reveal_with_fuel(crate::mutation::spec_insert_plan_list, 4);
    reveal_with_fuel(crate::mutation::spec_insert_plan_lists, 3);
    let cs = s.relations[0].schema;
    let id1 = ((base + 1) as u64);
    let fkr = Some(crate::mutation::FkRefView { name: s.relations[0].fk, parent: id1 });
    let kids = seq![a, b];
    let pa = crate::mutation::spec_insert_plan(cs, fkr, a, base + 1);
    assert(a.children =~= Seq::<Seq<crate::entity::EntityView>>::empty());
    assert(b.children =~= Seq::<Seq<crate::entity::EntityView>>::empty());
    assert(crate::mutation::spec_insert_plan_lists(cs.relations, a.children, (base + 2) as u64, base + 2)
        == (Seq::<crate::mutation::SqlStmtView>::empty(), base + 2));
    assert(pa.1 == base + 2);
    let pb = crate::mutation::spec_insert_plan(cs, fkr, b, base + 2);
    assert(crate::mutation::spec_insert_plan_lists(cs.relations, b.children, (base + 3) as u64, base + 3)
        == (Seq::<crate::mutation::SqlStmtView>::empty(), base + 3));
    assert(pb.1 == base + 3);
    assert(kids[0] == a);
    assert(kids.drop_first() =~= seq![b]);
    assert(seq![b][0] == b);
    assert(seq![b].drop_first() =~= Seq::<crate::entity::EntityView>::empty());
    let pl = crate::mutation::spec_insert_plan_list(cs, s.relations[0].fk, kids, id1, base + 1);
    assert(crate::mutation::spec_insert_plan_list(
        cs,
        s.relations[0].fk,
        Seq::<crate::entity::EntityView>::empty(),
        id1,
        base + 3,
    ).0 =~= Seq::<crate::mutation::SqlStmtView>::empty());
    assert(pl.0 =~= pa.0 + pb.0);
    assert(pl.1 == base + 3);
    assert(e.children[0] == seq![a, b]);
    assert(e.children.drop_first() =~= Seq::<Seq<crate::entity::EntityView>>::empty());
    assert(s.relations.drop_first() =~= Seq::<crate::schema::RelationView>::empty());
    let lists = crate::mutation::spec_insert_plan_lists(s.relations, e.children, id1, base + 1);
    assert(lists.0 =~= pl.0 + Seq::<crate::mutation::SqlStmtView>::empty());
    assert(lists.1 == base + 3);
    assert(crate::mutation::spec_insert_plan(s, fk, e, base).0 =~= seq![
        crate::mutation::SqlStmtView::Insert {
            table: s.table,
            columns: crate::mutation::spec_writable_cols(s.columns),
            values: crate::mutation::spec_writable_vals(s.columns, e.values),
            fk: fk,
        },
        crate::mutation::SqlStmtView::SetLastInsertId { id: id1 },
    ] + (pa.0 + pb.0));
    assert(pa.0 =~= seq![
        crate::mutation::SqlStmtView::Insert {
            table: cs.table,
            columns: crate::mutation::spec_writable_cols(cs.columns),
            values: crate::mutation::spec_writable_vals(cs.columns, a.values),
            fk: fkr,
        },
        crate::mutation::SqlStmtView::SetLastInsertId { id: (base + 2) as u64 },
    ]);
    assert(pb.0 =~= seq![
        crate::mutation::SqlStmtView::Insert {
            table: cs.table,
            columns: crate::mutation::spec_writable_cols(cs.columns),
            values: crate::mutation::spec_writable_vals(cs.columns, b.values),
            fk: fkr,
        },
        crate::mutation::SqlStmtView::SetLastInsertId { id: (base + 3) as u64 },
    ]);
    assert(crate::mutation::spec_insert_plan(s, fk, e, base).0 =~= seq![
        crate::mutation::SqlStmtView::Insert {
            table: s.table,
            columns: crate::mutation::spec_writable_cols(s.columns),
            values: crate::mutation::spec_writable_vals(s.columns, e.values),
            fk: fk,
        },
        crate::mutation::SqlStmtView::SetLastInsertId { id: id1 },
        crate::mutation::SqlStmtView::Insert {
            table: cs.table,
            columns: crate::mutation::spec_writable_cols(cs.columns),
            values: crate::mutation::spec_writable_vals(cs.columns, a.values),
            fk: fkr,
        },
        crate::mutation::SqlStmtView::SetLastInsertId { id: (base + 2) as u64 },
        crate::mutation::SqlStmtView::Insert {
            table: cs.table,
            columns: crate::mutation::spec_writable_cols(cs.columns),
            values: crate::mutation::spec_writable_vals(cs.columns, b.values),
            fk: fkr,
        },
        crate::mutation::SqlStmtView::SetLastInsertId { id: (base + 3) as u64 },
    ]);
}

} // verus!

verus! {

proof fn lemma_counts_empty()
    ensures
        spec_count_inserts(Seq::<crate::mutation::SqlStmtView>::empty()) == 0,
        spec_count_updates(Seq::<crate::mutation::SqlStmtView>::empty()) == 0,
        spec_count_deletes(Seq::<crate::mutation::SqlStmtView>::empty()) == 0,
{
}

proof fn lemma_counts_singleton(x: crate::mutation::SqlStmtView)
    ensures
        spec_count_inserts(seq![x]) == if x is Insert {
            1int
        } else {
            0int
        },
        spec_count_updates(seq![x]) == if x is Update {
            1int
        } else {
            0int
        },
        spec_count_deletes(seq![x]) == if x is Delete {
            1int
        } else {
            0int
        },
{
    reveal_with_fuel(spec_count_inserts, 2);
    reveal_with_fuel(spec_count_updates, 2);
    reveal_with_fuel(spec_count_deletes, 2);
    assert(seq![x].drop_last() =~= Seq::<crate::mutation::SqlStmtView>::empty());
    assert(seq![x].last() == x);
}

proof fn lemma_counts_pair(x: crate::mutation::SqlStmtView, y: crate::mutation::SqlStmtView)
    ensures
        spec_count_inserts(seq![x, y]) == (if x is Insert {
            1int
        } else {
            0int
        }) + (if y is Insert {
            1int
        } else {
            0int
        }),
        spec_count_updates(seq![x, y]) == (if x is Update {
            1int
        } else {
            0int
        }) + (if y is Update {
            1int
        } else {
            0int
        }),
        spec_count_deletes(seq![x, y]) == (if x is Delete {
            1int
        } else {
            0int
        }) + (if y is Delete {
            1int
        } else {
            0int
        }),
{
    reveal_with_fuel(spec_count_inserts, 2);
    reveal_with_fuel(spec_count_updates, 2);
    reveal_with_fuel(spec_count_deletes, 2);
    assert(seq![x, y].drop_last() =~= seq![x]);
    assert(seq![x, y].last() == y);
    lemma_counts_singleton(x);
}

/// Update diff shape: when the new graph differs from the loaded one by one
/// child added (no key), one child removed, and one child matched by key,
/// the batch holds exactly one INSERT, one DELETE, and one UPDATE among the
/// children, plus one UPDATE for the parent when it has writable columns.
pub proof fn lemma_update_diff_counts(
    s: crate::schema::SchemaView,
    fk: Option<crate::mutation::FkRefView>,
    n: crate::entity::EntityView,
    o: crate::entity::EntityView,
    a2: crate::entity::EntityView,
    c: crate::entity::EntityView,
    a: crate::entity::EntityView,
    b: crate::entity::EntityView,
    ka: u64,
    kb: u64,
    base: int,
)
    requires
        s.relations.len() == 1,
        s.relations[0].schema.relations.len() == 0,
        crate::mutation::spec_writable_cols(s.relations[0].schema.columns).len() > 0,
        n.pk is Some,
        n.children == seq![seq![a2, c]],
        o.children == seq![seq![a, b]],
        a.pk == Some(ka),
        a2.pk == Some(ka),
        b.pk == Some(kb),
        ka != kb,
        c.pk is None,
        a2.children.len() == 0,
        b.children.len() == 0,
        c.children.len() == 0,
    ensures
        spec_count_inserts(crate::mutation::spec_update_plan(s, fk, n, o, base).0) == 1,
        spec_count_deletes(crate::mutation::spec_update_plan(s, fk, n, o, base).0) == 1,
        spec_count_updates(crate::mutation::spec_update_plan(s, fk, n, o, base).0) == 1 + (
        if crate::mutation::spec_writable_cols(s.columns).len() == 0 {
            0int
        } else {
            1int
        }),
{
    reveal_with_fuel(crate::mutation::spec_update_plan, 3);
    reveal_with_fuel(crate::mutation::spec_update_plan_lists, 3);
    reveal_with_fuel(crate::mutation::spec_update_pass_new, 4);
    reveal_with_fuel(crate::mutation::spec_update_pass_old, 4);
    reveal_with_fuel(crate::mutation::spec_insert_plan, 3);
    reveal_with_fuel(crate::mutation::spec_delete_plan, 3);
    reveal_with_fuel(crate::mutation::spec_find_by_pk, 4);
    let cs = s.relations[0].schema;
    let fkn = s.relations[0].fk;
    let id = ((base + 1) as u64);
    let fkr = Some(crate::mutation::FkRefView { name: fkn, parent: id });
    let news = seq![a2, c];
    let olds = seq![a, b];
    // the matched child updates
    assert(olds[0] == a);
    assert(crate::mutation::spec_find_by_pk(olds, ka) == Some(a));
    let pa2 = crate::mutation::spec_update_plan(cs, fkr, a2, a, base + 1);
    assert(a2.children =~= Seq::<Seq<crate::entity::EntityView>>::empty());
    assert(pa2.0 =~= seq![
        crate::mutation::SqlStmtView::SetVar { id: (base + 2) as u64, pk: ka },
        crate::mutation::SqlStmtView::Update {
            table: cs.table,
            pk_col: cs.pk,
            columns: crate::mutation::spec_writable_cols(cs.columns),
            values: crate::mutation::spec_writable_vals(cs.columns, a2.values),
            id: (base + 2) as u64,
            fk: fkr,
        },
    ] + Seq::<crate::mutation::SqlStmtView>::empty());
    assert(pa2.1 == base + 2);
    // the new child inserts
    let pc = crate::mutation::spec_insert_plan(cs, fkr, c, base + 2);
    assert(c.children =~= Seq::<Seq<crate::entity::EntityView>>::empty());
    assert(pc.0 =~= seq![
        crate::mutation::SqlStmtView::Insert {
            table: cs.table,
            columns: crate::mutation::spec_writable_cols(cs.columns),
            values: crate::mutation::spec_writable_vals(cs.columns, c.values),
            fk: fkr,
        },
        crate::mutation::SqlStmtView::SetLastInsertId { id: (base + 3) as u64 },
    ]);
    assert(pc.1 == base + 3);
    // the first pass over the new children
    assert(news[0] == a2);
    assert(news.drop_first() =~= seq![c]);
    assert(seq![c][0] == c);
    assert(seq![c].drop_first() =~= Seq::<crate::entity::EntityView>::empty());
    let pn = crate::mutation::spec_update_pass_new(cs, fkn, news, olds, id, base + 1);
    assert(pn.0 =~= pa2.0 + (pc.0 + Seq::<crate::mutation::SqlStmtView>::empty()));
    assert(pn.1 == base + 3);
    // the second pass over the loaded children
    assert(crate::mutation::spec_has_pk(news, ka));
    assert(crate::mutation::spec_find_by_pk(news, kb) is None);
    assert(!crate::mutation::spec_has_pk(news, kb));
    assert(olds.drop_first() =~= seq![b]);
    assert(seq![b][0] == b);
    assert(seq![b].drop_first() =~= Seq::<crate::entity::EntityView>::empty());
    let pdel = crate::mutation::spec_delete_plan(cs, fkr, b, base + 3);
    assert(b.children =~= Seq::<Seq<crate::entity::EntityView>>::empty());
    assert(pdel.0 =~= seq![crate::mutation::SqlStmtView::SetVar { id: (base + 4) as u64, pk: kb }]
        + Seq::<crate::mutation::SqlStmtView>::empty() + seq![
        crate::mutation::SqlStmtView::Delete {
            table: cs.table,
            pk_col: cs.pk,
            id: (base + 4) as u64,
            fk: fkr,
        },
    ]);
    let po = crate::mutation::spec_update_pass_old(cs, fkn, news, olds, id, pn.1);
    assert(po.0 =~= Seq::<crate::mutation::SqlStmtView>::empty() + (pdel.0 + Seq::<
        crate::mutation::SqlStmtView,
    >::empty()));
    // the whole family
    assert(n.children[0] == news);
    assert(o.children[0] == olds);
    assert(n.children.drop_first() =~= Seq::<Seq<crate::entity::EntityView>>::empty());
    assert(o.children.drop_first() =~= Seq::<Seq<crate::entity::EntityView>>::empty());
    assert(s.relations.drop_first() =~= Seq::<crate::schema::RelationView>::empty());
    let sub = crate::mutation::spec_update_plan_lists(s.relations, n.children, o.children, id, base
        + 1);
    assert(sub.0 =~= pn.0 + po.0 + Seq::<crate::mutation::SqlStmtView>::empty());
    // the parent's own statements
    let pk_p = n.pk->Some_0;
    let head = seq![crate::mutation::SqlStmtView::SetVar { id, pk: pk_p }];
    let upd: Seq<crate::mutation::SqlStmtView> = if crate::mutation::spec_writable_cols(
        s.columns,
    ).len() == 0 {
        Seq::<crate::mutation::SqlStmtView>::empty()
    } else {
        seq![
            crate::mutation::SqlStmtView::Update {
                table: s.table,
                pk_col: s.pk,
                columns: crate::mutation::spec_writable_cols(s.columns),
                values: crate::mutation::spec_writable_vals(s.columns, n.values),
                id,
                fk: fk,
            },
        ]
    };
    let total = crate::mutation::spec_update_plan(s, fk, n, o, base);
    assert(total.0 == head + upd + sub.0);
    // count the pieces
    lemma_counts_empty();
    lemma_counts_pair(
        crate::mutation::SqlStmtView::SetVar { id: (base + 2) as u64, pk: ka },
        crate::mutation::SqlStmtView::Update {
            table: cs.table,
            pk_col: cs.pk,
            columns: crate::mutation::spec_writable_cols(cs.columns),
            values: crate::mutation::spec_writable_vals(cs.columns, a2.values),
            id: (base + 2) as u64,
            fk: fkr,
        },
    );
    lemma_counts_concat(
        seq![
            crate::mutation::SqlStmtView::SetVar { id: (base + 2) as u64, pk: ka },
            crate::mutation::SqlStmtView::Update {
                table: cs.table,
                pk_col: cs.pk,
                columns: crate::mutation::spec_writable_cols(cs.columns),
                values: crate::mutation::spec_writable_vals(cs.columns, a2.values),
                id: (base + 2) as u64,
                fk: fkr,
            },
        ],
        Seq::<crate::mutation::SqlStmtView>::empty(),
    );
    lemma_counts_pair(
        crate::mutation::SqlStmtView::Insert {
            table: cs.table,
            columns: crate::mutation::spec_writable_cols(cs.columns),
            values: crate::mutation::spec_writable_vals(cs.columns, c.values),
            fk: fkr,
        },
        crate::mutation::SqlStmtView::SetLastInsertId { id: (base + 3) as u64 },
    );
    lemma_counts_concat(pc.0, Seq::<crate::mutation::SqlStmtView>::empty());
    lemma_counts_concat(pa2.0, pc.0 + Seq::<crate::mutation::SqlStmtView>::empty());
    lemma_counts_singleton(
        crate::mutation::SqlStmtView::SetVar { id: (base + 4) as u64, pk: kb },
    );
    lemma_counts_singleton(
        crate::mutation::SqlStmtView::Delete {
            table: cs.table,
            pk_col: cs.pk,
            id: (base + 4) as u64,
            fk: fkr,
        },
    );
    lemma_counts_concat(
        seq![crate::mutation::SqlStmtView::SetVar { id: (base + 4) as u64, pk: kb }],
        Seq::<crate::mutation::SqlStmtView>::empty(),
    );
    lemma_counts_concat(
        seq![crate::mutation::SqlStmtView::SetVar { id: (base + 4) as u64, pk: kb }] + Seq::<
            crate::mutation::SqlStmtView,
        >::empty(),
        seq![
            crate::mutation::SqlStmtView::Delete {
                table: cs.table,
                pk_col: cs.pk,
                id: (base + 4) as u64,
                fk: fkr,
            },
        ],
    );
    lemma_counts_concat(pdel.0, Seq::<crate::mutation::SqlStmtView>::empty());
    lemma_counts_concat(
        Seq::<crate::mutation::SqlStmtView>::empty(),
        pdel.0 + Seq::<crate::mutation::SqlStmtView>::empty(),
    );
    lemma_counts_concat(pn.0, po.0);
    lemma_counts_concat(pn.0 + po.0, Seq::<crate::mutation::SqlStmtView>::empty());
    lemma_counts_singleton(crate::mutation::SqlStmtView::SetVar { id, pk: pk_p });
    if crate::mutation::spec_writable_cols(s.columns).len() != 0 {
        lemma_counts_singleton(
            crate::mutation::SqlStmtView::Update {
                table: s.table,
                pk_col: s.pk,
                columns: crate::mutation::spec_writable_cols(s.columns),
                values: crate::mutation::spec_writable_vals(s.columns, n.values),
                id,
                fk: fk,
            },
        );
    }
    lemma_counts_concat(head, upd);
    lemma_counts_concat(head + upd, sub.0);
}

} // verus!

verus! {

/// Idempotent read: materializing a row stream is a pure function of the
/// stream — two reads that the database answers with equal rows yield
/// identical entity graphs.
pub proof fn lemma_collect_deterministic(
    s: crate::schema::SchemaView,
    rows1: Seq<Seq<DbValueView>>,
    rows2: Seq<Seq<DbValueView>>,
)
    requires
        rows1 == rows2,
    ensures
        crate::collector::spec_collect(s, rows1) == crate::collector::spec_collect(s, rows2),
{
}

} // verus!

verus! {

/// `n` NULL cells.
pub open spec fn spec_null_cells(n: nat) -> Seq<DbValueView> {
    Seq::new(n, |i: int| DbValueView::Null)
}

/// Folding a split stream folds the first part, then the second.
pub proof fn lemma_push_all_concat(
    s: crate::schema::SchemaView,
    c: crate::collector::CollectorView,
    a: Seq<Seq<DbValueView>>,
    b: Seq<Seq<DbValueView>>,
)
    ensures
        crate::collector::spec_push_all(s, c, a + b) == crate::collector::spec_push_all(
            s,
            crate::collector::spec_push_all(s, c, a),
            b,
        ),
    decreases a.len(),
{
    if a.len() == 0 {
        assert(a + b =~= b);
    } else {
        assert((a + b)[0] == a[0]);
        assert((a + b).drop_first() =~= a.drop_first() + b);
        lemma_push_all_concat(s, crate::collector::spec_push(s, c, a[0]), a.drop_first(), b);
    }
}

} // verus!

verus! {

/// The synthetic ids a plan binds from captured keys, in emission order.
pub open spec fn spec_bound_ids(p: Seq<crate::mutation::SqlStmtView>) -> Seq<u64>
    decreases p,
{
    if p.len() == 0 {
        Seq::empty()
    } else {
        spec_bound_ids(p.drop_last()) + (match p.last() {
            crate::mutation::SqlStmtView::SetLastInsertId { id } => seq![id],
            _ => Seq::empty(),
        })
    }
}

/// The ids `from + 1 ..= to`, in increasing order.
pub open spec fn spec_id_range(from: int, to: int) -> Seq<u64> {
    Seq::new(if to >= from {
        (to - from) as nat
    } else {
        0
    }, |i: int| (from + 1 + i) as u64)
}

/// Bound ids concatenate across plan concatenation.
pub proof fn lemma_bound_ids_concat(
    a: Seq<crate::mutation::SqlStmtView>,
    b: Seq<crate::mutation::SqlStmtView>,
)
    ensures
        spec_bound_ids(a + b) == spec_bound_ids(a) + spec_bound_ids(b),
    decreases b.len(),
{
    if b.len() == 0 {
        assert(a + b =~= a);
        assert(spec_bound_ids(a) + spec_bound_ids(b) =~= spec_bound_ids(a));
    } else {
        assert((a + b).drop_last() =~= a + b.drop_last());
        assert((a + b).last() == b.last());
        lemma_bound_ids_concat(a, b.drop_last());
        assert(spec_bound_ids(a + b) =~= spec_bound_ids(a) + spec_bound_ids(b));
    }
}

/// Adjacent id ranges join into one.
pub proof fn lemma_id_range_join(a: int, b: int, c: int)
    requires
        a <= b <= c,
    ensures
        spec_id_range(a, b) + spec_id_range(b, c) == spec_id_range(a, c),
{
    assert(spec_id_range(a, b) + spec_id_range(b, c) =~= spec_id_range(a, c));
}

/// Synthetic id scoping, in general: an insert cascade binds exactly the
/// ids `counter + 1 ..= counter + visit count`, each exactly once, in
/// increasing pre-order.
pub proof fn lemma_insert_plan_ids(
    s: crate::schema::SchemaView,
    fk: Option<crate::mutation::FkRefView>,
    e: crate::entity::EntityView,
    counter: int,
)
    requires
        crate::entity::spec_conforms(e, s),
        counter >= 0,
        counter + crate::mutation::spec_insert_count(e) <= u64::MAX,
    ensures
        spec_bound_ids(crate::mutation::spec_insert_plan(s, fk, e, counter).0) == spec_id_range(
            counter,
            counter + crate::mutation::spec_insert_count(e),
        ),
    decreases e,
{
    reveal_with_fuel(spec_bound_ids, 3);
    let plan = crate::mutation::spec_insert_plan(s, fk, e, counter);
    if e.pk is Some {
        assert(plan.0 =~= Seq::<crate::mutation::SqlStmtView>::empty());
        assert(spec_bound_ids(plan.0) =~= spec_id_range(counter, counter));
    } else {
        let id = ((counter + 1) as u64);
        let head = seq![
            crate::mutation::SqlStmtView::Insert {
                table: s.table,
                columns: crate::mutation::spec_writable_cols(s.columns),
                values: crate::mutation::spec_writable_vals(s.columns, e.values),
                fk: fk,
            },
            crate::mutation::SqlStmtView::SetLastInsertId { id },
        ];
        assert(head.drop_last() =~= seq![
            crate::mutation::SqlStmtView::Insert {
                table: s.table,
                columns: crate::mutation::spec_writable_cols(s.columns),
                values: crate::mutation::spec_writable_vals(s.columns, e.values),
                fk: fk,
            },
        ]);
        assert(spec_bound_ids(head) =~= seq![id]);
        assert(seq![id] =~= spec_id_range(counter, counter + 1));
        crate::mutation::lemma_insert_plan_next(s, fk, e, counter);
        crate::mutation::lemma_insert_plan_lists_next(s.relations, e.children, id, counter + 1);
        lemma_insert_plan_lists_ids(s.relations, e.children, id, counter + 1);
        let sub = crate::mutation::spec_insert_plan_lists(s.relations, e.children, id, counter + 1);
        lemma_bound_ids_concat(head, sub.0);
        lemma_id_range_join(counter, counter + 1, sub.1);
    }
}

/// Id bookkeeping across the relations' child lists.
pub proof fn lemma_insert_plan_lists_ids(
    rels: Seq<crate::schema::RelationView>,
    lists: Seq<Seq<crate::entity::EntityView>>,
    parent: u64,
    counter: int,
)
    requires
        rels.len() == lists.len(),
        crate::entity::spec_conforms_lists(lists, rels),
        counter >= 0,
        counter + crate::mutation::spec_insert_count_lists(lists) <= u64::MAX,
    ensures
        spec_bound_ids(crate::mutation::spec_insert_plan_lists(rels, lists, parent, counter).0)
            == spec_id_range(
            counter,
            counter + crate::mutation::spec_insert_count_lists(lists),
        ),
    decreases lists,
{
    if lists.len() == 0 || rels.len() == 0 {
        assert(spec_bound_ids(Seq::<crate::mutation::SqlStmtView>::empty()) =~= spec_id_range(
            counter,
            counter,
        ));
    } else {
        let first = crate::mutation::spec_insert_plan_list(
            rels[0].schema,
            rels[0].fk,
            lists[0],
            parent,
            counter,
        );
        crate::mutation::lemma_insert_plan_list_next(
            rels[0].schema,
            rels[0].fk,
            lists[0],
            parent,
            counter,
        );
        crate::mutation::lemma_insert_plan_lists_next(
            rels.drop_first(),
            lists.drop_first(),
            parent,
            first.1,
        );
        lemma_insert_plan_list_ids(rels[0].schema, rels[0].fk, lists[0], parent, counter);
        lemma_insert_plan_lists_ids(rels.drop_first(), lists.drop_first(), parent, first.1);
        let rest = crate::mutation::spec_insert_plan_lists(
            rels.drop_first(),
            lists.drop_first(),
            parent,
            first.1,
        );
        lemma_bound_ids_concat(first.0, rest.0);
        lemma_id_range_join(counter, first.1, rest.1);
    }
}

/// Id bookkeeping across one child list.
pub proof fn lemma_insert_plan_list_ids(
    cs: crate::schema::SchemaView,
    fk_name: Seq<char>,
    es: Seq<crate::entity::EntityView>,
    parent: u64,
    counter: int,
)
    requires
        crate::entity::spec_conforms_list(es, cs),
        counter >= 0,
        counter + crate::mutation::spec_insert_count_list(es) <= u64::MAX,
    ensures
        spec_bound_ids(
            crate::mutation::spec_insert_plan_list(cs, fk_name, es, parent, counter).0,
        ) == spec_id_range(counter, counter + crate::mutation::spec_insert_count_list(es)),
    decreases es,
{
    if es.len() == 0 {
        assert(spec_bound_ids(Seq::<crate::mutation::SqlStmtView>::empty()) =~= spec_id_range(
            counter,
            counter,
        ));
    } else {
        let fkr = Some(crate::mutation::FkRefView { name: fk_name, parent });
        let first = crate::mutation::spec_insert_plan(cs, fkr, es[0], counter);
        crate::mutation::lemma_insert_plan_next(cs, fkr, es[0], counter);
        crate::mutation::lemma_insert_plan_list_next(cs, fk_name, es.drop_first(), parent, first.1);
        lemma_insert_plan_ids(cs, fkr, es[0], counter);
        lemma_insert_plan_list_ids(cs, fk_name, es.drop_first(), parent, first.1);
        let rest = crate::mutation::spec_insert_plan_list(
            cs,
            fk_name,
            es.drop_first(),
            parent,
            first.1,
        );
        lemma_bound_ids_concat(first.0, rest.0);
        lemma_id_range_join(counter, first.1, rest.1);
    }
}

/// The bound ids of an insert cascade are pairwise distinct.
pub proof fn lemma_insert_plan_ids_distinct(
    s: crate::schema::SchemaView,
    fk: Option<crate::mutation::FkRefView>,
    e: crate::entity::EntityView,
    counter: int,
)
    requires
        crate::entity::spec_conforms(e, s),
        counter >= 0,
        counter + crate::mutation::spec_insert_count(e) <= u64::MAX,
    ensures
        forall|i: int, j: int|
            0 <= i < j < spec_bound_ids(
                crate::mutation::spec_insert_plan(s, fk, e, counter).0,
            ).len() ==> #[trigger] spec_bound_ids(
                crate::mutation::spec_insert_plan(s, fk, e, counter).0,
            )[i] != #[trigger] spec_bound_ids(
                crate::mutation::spec_insert_plan(s, fk, e, counter).0,
            )[j],
{
    lemma_insert_plan_ids(s, fk, e, counter);
}

} // verus!

verus! {

/// A chain schema: at most one relation per level.
pub open spec fn spec_chain(s: crate::schema::SchemaView) -> bool
    decreases s,
{
    &&& s.relations.len() <= 1
    &&& (s.relations.len() == 1 ==> spec_chain(s.relations[0].schema))
}

/// A well-grouped tree: keyed at every node, cells matching the schema, one
/// child list per relation, and neighbouring siblings carrying distinct
/// keys.
pub open spec fn spec_grouped(
    s: crate::schema::SchemaView,
    e: crate::entity::EntityView,
) -> bool
    decreases e, 0int,
{
    &&& e.pk is Some
    &&& e.values.len() == s.columns.len()
    &&& e.children.len() == s.relations.len()
    &&& (s.relations.len() == 1 ==> spec_grouped_list(s.relations[0].schema, e.children[0]))
}

/// A well-grouped sibling list.
pub open spec fn spec_grouped_list(
    cs: crate::schema::SchemaView,
    es: Seq<crate::entity::EntityView>,
) -> bool
    decreases es, 1int,
{
    if es.len() == 0 {
        true
    } else {
        &&& spec_grouped(cs, es[0])
        &&& (es.len() == 1 || es[1].pk != es[0].pk)
        &&& spec_grouped_list(cs, es.drop_first())
    }
}

/// Every member of a well-grouped list is well-grouped, and neighbours
/// carry distinct keys.
pub proof fn lemma_grouped_list_index(
    cs: crate::schema::SchemaView,
    es: Seq<crate::entity::EntityView>,
    i: int,
)
    requires
        spec_grouped_list(cs, es),
        0 <= i < es.len(),
    ensures
        spec_grouped(cs, es[i]),
        i > 0 ==> es[i].pk != es[i - 1].pk,
    decreases es,
{
    if i > 0 {
        lemma_grouped_list_index(cs, es.drop_first(), i - 1);
        assert(es.drop_first()[i - 1] == es[i]);
        if i > 1 {
            assert(es.drop_first()[i - 2] == es[i - 1]);
        }
    }
}

/// Rows each carrying a prefix before them.
pub open spec fn spec_embed_rows(
    prefix: Seq<DbValueView>,
    rows: Seq<Seq<DbValueView>>,
) -> Seq<Seq<DbValueView>> {
    rows.map_values(|r: Seq<DbValueView>| prefix + r)
}

/// The canonical subtree rows of one entity in a chain schema: its own arm's
/// row (the child block NULL), then every child row prefixed with this
/// entity's key and cells.
pub open spec fn spec_chain_rows(
    s: crate::schema::SchemaView,
    e: crate::entity::EntityView,
) -> Seq<Seq<DbValueView>>
    decreases e, 0int,
{
    seq![
        seq![DbValueView::UInt(e.pk->Some_0)] + e.values + spec_null_cells(
            crate::schema::spec_width_rels(s.relations),
        ),
    ] + (if s.relations.len() == 1 {
        spec_embed_rows(
            seq![DbValueView::UInt(e.pk->Some_0)] + e.values,
            spec_chain_rows_kids(s.relations[0].schema, e.children),
        )
    } else {
        Seq::empty()
    })
}

/// The canonical rows of the first child list of a family.
pub open spec fn spec_chain_rows_kids(
    cs: crate::schema::SchemaView,
    lists: Seq<Seq<crate::entity::EntityView>>,
) -> Seq<Seq<DbValueView>>
    decreases lists, 2int,
{
    if lists.len() == 0 {
        Seq::empty()
    } else {
        spec_chain_rows_list(cs, lists[0])
    }
}

/// The canonical rows of a sibling list, run after run.
pub open spec fn spec_chain_rows_list(
    cs: crate::schema::SchemaView,
    es: Seq<crate::entity::EntityView>,
) -> Seq<Seq<DbValueView>>
    decreases es, 1int,
{
    if es.len() == 0 {
        Seq::empty()
    } else {
        spec_chain_rows_list(cs, es.drop_last()) + spec_chain_rows(cs, es.last())
    }
}

/// Every canonical row of a subtree spans exactly the subtree's width.
pub proof fn lemma_chain_rows_len(
    s: crate::schema::SchemaView,
    e: crate::entity::EntityView,
)
    requires
        spec_chain(s),
        spec_grouped(s, e),
    ensures
        spec_chain_rows(s, e).len() >= 1,
        forall|j: int|
            0 <= j < spec_chain_rows(s, e).len() ==> (#[trigger] spec_chain_rows(s, e)[j]).len()
                == crate::schema::spec_width(s),
    decreases e, 0int,
{
    let rows = spec_chain_rows(s, e);
    crate::query::lemma_width_rels_nonneg(s.relations);
    assert(rows[0].len() == crate::schema::spec_width(s));
    if s.relations.len() == 1 {
        let cs = s.relations[0].schema;
        assert(crate::schema::spec_width_rels(s.relations) == crate::schema::spec_width(cs)) by {
            assert(s.relations.drop_last() =~= Seq::<crate::schema::RelationView>::empty());
            assert(s.relations.last() == s.relations[0]);
            assert(crate::schema::spec_width_rels(Seq::<crate::schema::RelationView>::empty())
                == 0);
        }
        lemma_chain_rows_list_len(cs, e.children[0]);
        let inner = spec_chain_rows_list(cs, e.children[0]);
        assert(spec_chain_rows_kids(cs, e.children) == inner);
        assert forall|j: int| 0 <= j < rows.len() implies (#[trigger] rows[j]).len()
            == crate::schema::spec_width(s) by {
            if j > 0 {
                assert(rows[j] == (seq![DbValueView::UInt(e.pk->Some_0)] + e.values) + inner[j
                    - 1]);
            }
        }
    } else {
        assert(e.children.len() == 0);
    }
}

/// Length bookkeeping for [`spec_chain_rows_list`].
pub proof fn lemma_chain_rows_list_len(
    cs: crate::schema::SchemaView,
    es: Seq<crate::entity::EntityView>,
)
    requires
        spec_chain(cs),
        spec_grouped_list(cs, es),
    ensures
        forall|j: int|
            0 <= j < spec_chain_rows_list(cs, es).len() ==> (#[trigger] spec_chain_rows_list(
                cs,
                es,
            )[j]).len() == crate::schema::spec_width(cs),
    decreases es, 1int,
{
    if es.len() > 0 {
        assert(spec_grouped_list(cs, es.drop_last())) by {
            lemma_grouped_list_drop_last(cs, es);
        }
        lemma_chain_rows_list_len(cs, es.drop_last());
        lemma_grouped_list_index(cs, es, es.len() - 1);
        lemma_chain_rows_len(cs, es.last());
        let pre = spec_chain_rows_list(cs, es.drop_last());
        let blk = spec_chain_rows(cs, es.last());
        assert forall|j: int| 0 <= j < spec_chain_rows_list(cs, es).len() implies (
        #[trigger] spec_chain_rows_list(cs, es)[j]).len() == crate::schema::spec_width(cs) by {
            if j < pre.len() {
                assert(spec_chain_rows_list(cs, es)[j] == pre[j]);
            } else {
                assert(spec_chain_rows_list(cs, es)[j] == blk[j - pre.len()]);
            }
        }
    }
}

/// A well-grouped list stays well-grouped without its last member.
pub proof fn lemma_grouped_list_drop_last(
    cs: crate::schema::SchemaView,
    es: Seq<crate::entity::EntityView>,
)
    requires
        spec_grouped_list(cs, es),
        es.len() > 0,
    ensures
        spec_grouped_list(cs, es.drop_last()),
    decreases es,
{
    if es.len() > 1 {
        lemma_grouped_list_drop_last(cs, es.drop_first());
        assert(es.drop_first().drop_last() =~= es.drop_last().drop_first());
        assert(es.drop_last()[0] == es[0]);
        if es.len() > 2 {
            assert(es.drop_last()[1] == es[1]);
        }
    } else {
        assert(es.drop_last() =~= Seq::<crate::entity::EntityView>::empty());
    }
}

} // verus!

verus! {

/// The assembly a chain entity leaves in a collector: its key and cells,
/// and — when the schema nests — one nested collector holding the child
/// list's own end state.
pub open spec fn spec_chain_end_partial(
    s: crate::schema::SchemaView,
    off: int,
    e: crate::entity::EntityView,
) -> crate::collector::PartialView
    decreases e, 0int,
{
    crate::collector::PartialView {
        pk: e.pk->Some_0,
        values: e.values,
        subs: if s.relations.len() == 1 {
            seq![
                spec_chain_end_kids(
                    s.relations[0].schema,
                    off + 1 + s.columns.len() as int,
                    e.children,
                ),
            ]
        } else {
            Seq::empty()
        },
    }
}

/// The end state of the first child list of a family.
pub open spec fn spec_chain_end_kids(
    cs: crate::schema::SchemaView,
    off: int,
    lists: Seq<Seq<crate::entity::EntityView>>,
) -> crate::collector::CollectorView
    decreases lists, 2int,
{
    if lists.len() == 0 {
        crate::collector::spec_init_collector(off)
    } else {
        spec_chain_end_state(cs, off, lists[0])
    }
}

/// The collector state a whole sibling list leaves: every member but the
/// last finished, the last still under assembly.
pub open spec fn spec_chain_end_state(
    cs: crate::schema::SchemaView,
    off: int,
    es: Seq<crate::entity::EntityView>,
) -> crate::collector::CollectorView
    decreases es, 1int,
{
    crate::collector::CollectorView {
        offset: off,
        current: if es.len() == 0 {
            None
        } else {
            Some(spec_chain_end_partial(cs, off, es.last()))
        },
        results: if es.len() == 0 {
            Seq::empty()
        } else {
            es.drop_last()
        },
    }
}

/// Finalizing a chain entity's assembly yields exactly that entity.
pub proof fn lemma_chain_end_finish(
    s: crate::schema::SchemaView,
    off: int,
    e: crate::entity::EntityView,
)
    requires
        spec_chain(s),
        spec_grouped(s, e),
    ensures
        crate::collector::spec_finish(spec_chain_end_partial(s, off, e)) == e,
    decreases e, 0int,
{
    reveal_with_fuel(crate::collector::spec_finish, 2);
    reveal_with_fuel(crate::collector::spec_finish_subs, 3);
    reveal_with_fuel(crate::collector::spec_build, 2);
    let bp = spec_chain_end_partial(s, off, e);
    if s.relations.len() == 1 {
        let cs = s.relations[0].schema;
        let b = off + 1 + s.columns.len() as int;
        let kids = e.children[0];
        lemma_chain_end_build(cs, b, kids);
        assert(bp.subs.drop_first() =~= Seq::<crate::collector::CollectorView>::empty());
        assert(crate::collector::spec_finish_subs(bp.subs) =~= seq![
            crate::collector::spec_build(spec_chain_end_kids(cs, b, e.children)),
        ]);
        assert(spec_chain_end_kids(cs, b, e.children) == spec_chain_end_state(cs, b, kids));
        assert(crate::collector::spec_build(spec_chain_end_state(cs, b, kids)) == kids);
        assert(e.children =~= seq![kids]);
        assert(crate::collector::spec_finish(bp) =~~= e);
    } else {
        assert(bp.subs =~= Seq::<crate::collector::CollectorView>::empty());
        assert(crate::collector::spec_finish_subs(bp.subs) =~= Seq::<
            Seq<crate::entity::EntityView>,
        >::empty());
        assert(e.children =~= Seq::<Seq<crate::entity::EntityView>>::empty());
        assert(crate::collector::spec_finish(bp) =~~= e);
    }
}

/// Building a sibling list's end state yields exactly that list.
pub proof fn lemma_chain_end_build(
    cs: crate::schema::SchemaView,
    off: int,
    es: Seq<crate::entity::EntityView>,
)
    requires
        spec_chain(cs),
        spec_grouped_list(cs, es),
    ensures
        crate::collector::spec_build(spec_chain_end_state(cs, off, es)) == es,
    decreases es, 1int,
{
    reveal_with_fuel(crate::collector::spec_build, 2);
    if es.len() == 0 {
        assert(crate::collector::spec_build(spec_chain_end_state(cs, off, es)) =~= es);
    } else {
        lemma_grouped_list_index(cs, es, es.len() - 1);
        lemma_chain_end_finish(cs, off, es.last());
        assert(crate::collector::spec_build(spec_chain_end_state(cs, off, es))
            =~= es.drop_last().push(es.last()));
        assert(es.drop_last().push(es.last()) =~= es);
    }
}

/// Rows that repeat an entity's key at its offset pass through that level
/// into the single nested collector.
pub proof fn lemma_chain_dispatch(
    s: crate::schema::SchemaView,
    off: int,
    pk: u64,
    values: Seq<DbValueView>,
    sub: crate::collector::CollectorView,
    results: Seq<crate::entity::EntityView>,
    rows: Seq<Seq<DbValueView>>,
)
    requires
        s.relations.len() == 1,
        forall|j: int|
            0 <= j < rows.len() ==> crate::collector::spec_row_pk(#[trigger] rows[j], off) == Some(
                pk,
            ),
    ensures
        crate::collector::spec_push_all(
            s,
            crate::collector::CollectorView {
                offset: off,
                current: Some(
                    crate::collector::PartialView { pk, values, subs: seq![sub] },
                ),
                results,
            },
            rows,
        ) == (crate::collector::CollectorView {
            offset: off,
            current: Some(
                crate::collector::PartialView {
                    pk,
                    values,
                    subs: seq![
                        crate::collector::spec_push_all(s.relations[0].schema, sub, rows),
                    ],
                },
            ),
            results,
        }),
    decreases rows.len(),
{
    reveal_with_fuel(crate::collector::spec_push, 2);
    reveal_with_fuel(crate::collector::spec_push_subs, 2);
    if rows.len() > 0 {
        let row = rows[0];
        let c = crate::collector::CollectorView {
            offset: off,
            current: Some(crate::collector::PartialView { pk, values, subs: seq![sub] }),
            results,
        };
        assert(crate::collector::spec_row_pk(row, off) == Some(pk));
        assert(seq![sub][0] == sub);
        assert(seq![sub].drop_first() =~= Seq::<crate::collector::CollectorView>::empty());
        assert(s.relations.drop_first() =~= Seq::<crate::schema::RelationView>::empty());
        assert(crate::collector::spec_push_subs(s.relations, seq![sub], row) =~= seq![
            crate::collector::spec_push(s.relations[0].schema, sub, row),
        ]);
        assert(crate::collector::spec_push(s, c, row) =~~= (crate::collector::CollectorView {
            offset: off,
            current: Some(
                crate::collector::PartialView {
                    pk,
                    values,
                    subs: seq![
                        crate::collector::spec_push(s.relations[0].schema, sub, row),
                    ],
                },
            ),
            results,
        }));
        lemma_chain_dispatch(
            s,
            off,
            pk,
            values,
            crate::collector::spec_push(s.relations[0].schema, sub, row),
            results,
            rows.drop_first(),
        );
        assert(forall|j: int| 0 <= j < rows.drop_first().len() ==> rows.drop_first()[j] == rows[j
            + 1]);
    }
}

} // verus!

verus! {

/// Rows carrying a row pattern inside the block starting at `off`: cells
/// outside the block are arbitrary.
pub open spec fn spec_rows_carry(
    rows: Seq<Seq<DbValueView>>,
    off: int,
    pat: Seq<Seq<DbValueView>>,
    w: int,
) -> bool {
    &&& rows.len() == pat.len()
    &&& forall|j: int| 0 <= j < rows.len() ==> (#[trigger] rows[j]).len() >= off + w
    &&& forall|j: int| 0 <= j < rows.len() ==> (#[trigger] rows[j]).subrange(off, off + w)
        == pat[j]
}

/// One chain entity's whole run: from a state holding no or another
/// entity's assembly, the run finalizes the previous assembly, starts this
/// entity's, and leaves its children grouped in the nested collector.
pub proof fn lemma_chain_block_fold(
    s: crate::schema::SchemaView,
    off: int,
    e: crate::entity::EntityView,
    rows: Seq<Seq<DbValueView>>,
    c0: crate::collector::CollectorView,
)
    requires
        spec_chain(s),
        spec_grouped(s, e),
        spec_rows_carry(rows, off, spec_chain_rows(s, e), crate::schema::spec_width(s) as int),
        off >= 0,
        c0.offset == off,
        match c0.current {
            None => true,
            Some(bp) => bp.pk != e.pk->Some_0,
        },
    ensures
        crate::collector::spec_push_all(s, c0, rows) == (crate::collector::CollectorView {
            offset: off,
            current: Some(spec_chain_end_partial(s, off, e)),
            results: match c0.current {
                None => c0.results,
                Some(bp) => c0.results.push(crate::collector::spec_finish(bp)),
            },
        }),
    decreases e, 0int,
{
    reveal_with_fuel(crate::collector::spec_push, 2);
    reveal_with_fuel(crate::collector::spec_push_all, 2);
    reveal_with_fuel(crate::collector::spec_new_partial, 2);
    reveal_with_fuel(crate::collector::spec_new_subs, 2);
    crate::query::lemma_width_rels_nonneg(s.relations);
    lemma_chain_rows_len(s, e);
    let w = crate::schema::spec_width(s) as int;
    let pat = spec_chain_rows(s, e);
    let pk = e.pk->Some_0;
    let own = pat[0];
    let row0 = rows[0];
    assert(row0.subrange(off, off + w) == own);
    assert(row0[off] == own[0]) by {
        assert(row0.subrange(off, off + w)[0] == row0[off]);
    }
    assert(own[0] == DbValueView::UInt(pk));
    assert(crate::collector::spec_row_pk(row0, off) == Some(pk));
    let np = crate::collector::spec_new_partial(s, off, pk, row0);
    assert(np.values == e.values) by {
        assert(row0.subrange(off + 1, off + 1 + s.columns.len() as int) =~= own.subrange(
            1,
            1 + s.columns.len() as int,
        ));
        assert(own.subrange(1, 1 + s.columns.len() as int) =~= e.values);
    }
    let after_own = crate::collector::spec_push(s, c0, row0);
    let res1 = match c0.current {
        None => c0.results,
        Some(bp) => c0.results.push(crate::collector::spec_finish(bp)),
    };
    if s.relations.len() == 0 {
        assert(np.subs =~= Seq::<crate::collector::CollectorView>::empty());
        assert(spec_chain_end_partial(s, off, e).subs =~= Seq::<
            crate::collector::CollectorView,
        >::empty());
        assert(pat.len() == 1);
        assert(rows =~= seq![row0]);
        assert(crate::collector::spec_push_all(s, after_own, Seq::<Seq<DbValueView>>::empty())
            == after_own);
        lemma_push_all_concat(s, c0, seq![row0], Seq::<Seq<DbValueView>>::empty());
        assert(seq![row0] + Seq::<Seq<DbValueView>>::empty() =~= rows);
        assert(after_own =~~= (crate::collector::CollectorView {
            offset: off,
            current: Some(spec_chain_end_partial(s, off, e)),
            results: res1,
        }));
    } else {
        let cs = s.relations[0].schema;
        let b = off + 1 + s.columns.len() as int;
        let kids = e.children[0];
        assert(crate::schema::spec_width_rels(s.relations) == crate::schema::spec_width(cs)) by {
            assert(s.relations.drop_last() =~= Seq::<crate::schema::RelationView>::empty());
            assert(s.relations.last() == s.relations[0]);
            assert(crate::schema::spec_width_rels(Seq::<crate::schema::RelationView>::empty())
                == 0);
        }
        // the own row seeds the nested collector with a blank cell
        assert(row0[b] == own[b - off]) by {
            assert(row0.subrange(off, off + w)[b - off] == row0[b]);
        }
        assert(own[b - off] == DbValueView::Null) by {
            assert(own[b - off] == spec_null_cells(crate::schema::spec_width_rels(s.relations))[b
                - off - 1 - s.columns.len()]);
        }
        assert(crate::collector::spec_row_pk(row0, b) is None);
        let init_sub = crate::collector::spec_init_collector(b);
        assert(crate::collector::spec_push(cs, init_sub, row0) == init_sub);
        assert(s.relations.drop_first() =~= Seq::<crate::schema::RelationView>::empty());
        assert(np.subs =~= seq![init_sub]);
        assert(after_own =~~= (crate::collector::CollectorView {
            offset: off,
            current: Some(
                crate::collector::PartialView { pk, values: e.values, subs: seq![init_sub] },
            ),
            results: res1,
        }));
        // the child rows repeat this entity's key and carry the child runs
        let rest = rows.subrange(1, rows.len() as int);
        let head = seq![DbValueView::UInt(pk)] + e.values;
        let inner = spec_chain_rows_list(cs, kids);
        assert(spec_chain_rows_kids(cs, e.children) == inner);
        assert(forall|m: int|
            0 <= m < inner.len() ==> #[trigger] pat[m + 1] == head + inner[m]);
        assert(rest.len() == inner.len());
        assert forall|m: int| 0 <= m < rest.len() implies crate::collector::spec_row_pk(
            #[trigger] rest[m],
            off,
        ) == Some(pk) by {
            assert(rest[m] == rows[m + 1]);
            assert(rows[m + 1].subrange(off, off + w) == pat[m + 1]);
            assert(rows[m + 1].subrange(off, off + w)[0] == rows[m + 1][off]);
            assert(pat[m + 1][0] == DbValueView::UInt(pk));
        }
        lemma_chain_dispatch(s, off, pk, e.values, init_sub, res1, rest);
        // the nested collector folds the child runs
        lemma_chain_rows_list_len(cs, kids);
        assert forall|m: int| 0 <= m < rest.len() implies (#[trigger] rest[m]).len() >= b
            + crate::schema::spec_width(cs) by {
            assert(rest[m] == rows[m + 1]);
        }
        assert forall|m: int| 0 <= m < rest.len() implies (#[trigger] rest[m]).subrange(
            b,
            b + crate::schema::spec_width(cs) as int,
        ) == inner[m] by {
            assert(rest[m] == rows[m + 1]);
            assert(rows[m + 1].subrange(off, off + w) == pat[m + 1]);
            assert(pat[m + 1] == head + inner[m]);
            assert(inner[m].len() == crate::schema::spec_width(cs));
            assert(rest[m].subrange(b, b + crate::schema::spec_width(cs) as int) =~= rows[m
                + 1].subrange(off, off + w).subrange(
                b - off,
                b - off + crate::schema::spec_width(cs) as int,
            ));
            assert((head + inner[m]).subrange(
                b - off,
                b - off + crate::schema::spec_width(cs) as int,
            ) =~= inner[m]);
        }
        assert(spec_rows_carry(rest, b, inner, crate::schema::spec_width(cs) as int));
        lemma_chain_list_fold(cs, b, kids, rest, init_sub);
        let sub_end = crate::collector::spec_push_all(cs, init_sub, rest);
        assert(sub_end == spec_chain_end_kids(cs, b, e.children)) by {
            if kids.len() == 0 {
                assert(sub_end =~~= crate::collector::spec_init_collector(b));
            } else {
                assert(Seq::<crate::entity::EntityView>::empty() + kids.drop_last()
                    =~= kids.drop_last());
                assert(sub_end =~~= spec_chain_end_state(cs, b, kids));
            }
        }
        // stitch the own row and the child rows together
        lemma_push_all_concat(s, c0, seq![row0], rest);
        assert(seq![row0] + rest =~= rows);
        assert(crate::collector::spec_push_all(s, c0, seq![row0]) == after_own);
        assert(spec_chain_end_partial(s, off, e).subs =~= seq![sub_end]);
        assert(crate::collector::spec_push_all(s, c0, rows)
            =~~= (crate::collector::CollectorView {
            offset: off,
            current: Some(spec_chain_end_partial(s, off, e)),
            results: res1,
        }));
    }
}

/// A whole sibling list's run from an idle collector.
pub proof fn lemma_chain_list_fold(
    cs: crate::schema::SchemaView,
    off: int,
    es: Seq<crate::entity::EntityView>,
    rows: Seq<Seq<DbValueView>>,
    c0: crate::collector::CollectorView,
)
    requires
        spec_chain(cs),
        spec_grouped_list(cs, es),
        spec_rows_carry(
            rows,
            off,
            spec_chain_rows_list(cs, es),
            crate::schema::spec_width(cs) as int,
        ),
        off >= 0,
        c0.offset == off,
        c0.current is None,
    ensures
        es.len() == 0 ==> crate::collector::spec_push_all(cs, c0, rows) == c0,
        es.len() > 0 ==> crate::collector::spec_push_all(cs, c0, rows)
            == (crate::collector::CollectorView {
            offset: off,
            current: Some(spec_chain_end_partial(cs, off, es.last())),
            results: c0.results + es.drop_last(),
        }),
    decreases es, 1int,
{
    if es.len() == 0 {
        assert(rows =~= Seq::<Seq<DbValueView>>::empty());
    } else {
        let es0 = es.drop_last();
        let e = es.last();
        lemma_grouped_list_drop_last(cs, es);
        lemma_grouped_list_index(cs, es, es.len() - 1);
        let pre = spec_chain_rows_list(cs, es0);
        let blk = spec_chain_rows(cs, e);
        let k = pre.len() as int;
        let rows0 = rows.subrange(0, k);
        let rows1 = rows.subrange(k, rows.len() as int);
        assert forall|j: int| 0 <= j < rows0.len() implies (#[trigger] rows0[j]).subrange(
            off,
            off + crate::schema::spec_width(cs) as int,
        ) == pre[j] && rows0[j].len() >= off + crate::schema::spec_width(cs) by {
            assert(rows0[j] == rows[j]);
            assert(spec_chain_rows_list(cs, es)[j] == pre[j]);
        }
        assert(spec_rows_carry(rows0, off, pre, crate::schema::spec_width(cs) as int));
        lemma_chain_list_fold(cs, off, es0, rows0, c0);
        let folded0 = crate::collector::spec_push_all(cs, c0, rows0);
        assert forall|j: int| 0 <= j < rows1.len() implies (#[trigger] rows1[j]).subrange(
            off,
            off + crate::schema::spec_width(cs) as int,
        ) == blk[j] && rows1[j].len() >= off + crate::schema::spec_width(cs) by {
            assert(rows1[j] == rows[j + k]);
            assert(spec_chain_rows_list(cs, es)[j + k] == blk[j]);
        }
        assert(spec_rows_carry(rows1, off, blk, crate::schema::spec_width(cs) as int));
        if es0.len() == 0 {
            assert(folded0 == c0);
            lemma_chain_block_fold(cs, off, e, rows1, folded0);
            assert(c0.results + es.drop_last() =~= c0.results);
        } else {
            let prev = es0.last();
            assert(prev == es[es.len() - 2]);
            lemma_grouped_list_index(cs, es, es.len() - 2);
            assert(e.pk != prev.pk);
            assert(spec_grouped(cs, prev));
            assert(spec_chain_end_partial(cs, off, prev).pk == prev.pk->Some_0);
            assert(spec_chain_end_partial(cs, off, prev).pk != e.pk->Some_0);
            lemma_chain_block_fold(cs, off, e, rows1, folded0);
            lemma_chain_end_finish(cs, off, prev);
            assert((c0.results + es0.drop_last()).push(prev) =~= c0.results + es.drop_last());
        }
        lemma_push_all_concat(cs, c0, rows0, rows1);
        assert(rows0 + rows1 =~= rows);
    }
}

/// Grouping, for chain schemas of any depth: the canonical ordered stream
/// of a well-grouped entity list folds back into exactly those entities,
/// children grouped under their parents at every level.
pub proof fn lemma_collect_chain(
    s: crate::schema::SchemaView,
    ps: Seq<crate::entity::EntityView>,
)
    requires
        spec_chain(s),
        spec_grouped_list(s, ps),
    ensures
        crate::collector::spec_collect(s, spec_chain_rows_list(s, ps)) == ps,
{
    reveal_with_fuel(crate::collector::spec_build, 2);
    let rows = spec_chain_rows_list(s, ps);
    lemma_chain_rows_list_len(s, ps);
    assert forall|j: int| 0 <= j < rows.len() implies (#[trigger] rows[j]).subrange(
        0,
        crate::schema::spec_width(s) as int,
    ) == rows[j] && rows[j].len() >= crate::schema::spec_width(s) by {
        assert(rows[j].subrange(0, crate::schema::spec_width(s) as int) =~= rows[j]);
    }
    assert(spec_rows_carry(rows, 0, rows, crate::schema::spec_width(s) as int));
    lemma_chain_list_fold(s, 0, ps, rows, crate::collector::spec_init_collector(0));
    if ps.len() == 0 {
        assert(crate::collector::spec_collect(s, rows) =~= ps);
    } else {
        lemma_grouped_list_index(s, ps, ps.len() - 1);
        lemma_chain_end_finish(s, 0, ps.last());
        assert(crate::collector::spec_collect(s, rows) =~= (Seq::<
            crate::entity::EntityView,
        >::empty() + ps.drop_last()).push(ps.last()));
        assert((Seq::<crate::entity::EntityView>::empty() + ps.drop_last()).push(ps.last())
            =~= ps);
    }
}

} // verus!
