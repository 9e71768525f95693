use mysql_async_orm::collector::{vec_from_rows, DataCollector};
use mysql_async_orm::query::{get_by_pk_sql, sql, sql_order_by};
use mysql_async_orm::schema::{width, Column, Relation, Schema};
use mysql_async_orm::values::DbValue;

fn grand_schema() -> Schema {
    Schema {
        table: "grand".to_string(),
        from: "grand".to_string(),
        joins: String::new(),
        pk: "id".to_string(),
        columns: vec![Column {
            name: "g".to_string(),
            table: None,
            expression: None,
            readonly: false,
        }],
        relations: vec![],
    }
}

fn deep_schema() -> Schema {
    let child = Schema {
        table: "child".to_string(),
        from: "child".to_string(),
        joins: String::new(),
        pk: "id".to_string(),
        columns: vec![Column {
            name: "label".to_string(),
            table: None,
            expression: None,
            readonly: false,
        }],
        relations: vec![Relation { fk: "child_id".to_string(), schema: grand_schema() }],
    };
    Schema {
        table: "parent".to_string(),
        from: "parent".to_string(),
        joins: String::new(),
        pk: "id".to_string(),
        columns: vec![Column {
            name: "name".to_string(),
            table: None,
            expression: None,
            readonly: false,
        }],
        relations: vec![Relation { fk: "parent_id".to_string(), schema: child }],
    }
}

#[test]
fn width_counts_the_flattened_columns() {
    let s = deep_schema();
    assert_eq!(width(&s), 6);
}

#[test]
fn sql_parts_of_a_two_level_schema() {
    let s = deep_schema();
    let (table, tpl, offsets, branches) = sql(&s);
    assert_eq!(table, "parent");
    assert_eq!(tpl, "NULL,NULL,NULL,NULL,NULL,NULL");
    assert_eq!(offsets, vec![0, 2, 4]);
    assert_eq!(branches.len(), 3);
    assert_eq!(branches[0].table, "parent");
    assert_eq!(branches[0].select, "parent.id,parent.name,NULL,NULL,NULL,NULL");
    assert_eq!(branches[0].from, "");
    assert_eq!(branches[1].select, "parent.id,parent.name,child.id,child.label,NULL,NULL");
    assert_eq!(branches[1].from, " LEFT JOIN child ON parent.id=child.parent_id ");
    assert_eq!(
        branches[2].select,
        "parent.id,parent.name,child.id,child.label,grand.id,grand.g"
    );
    assert_eq!(
        branches[2].from,
        " LEFT JOIN child ON parent.id=child.parent_id  LEFT JOIN grand ON child.id=grand.child_id "
    );
}

#[test]
fn expression_and_table_overrides_shape_the_select_list() {
    let s = Schema {
        table: "a".to_string(),
        from: "articles a".to_string(),
        joins: " LEFT JOIN units u ON a.unit=u.id".to_string(),
        pk: "id".to_string(),
        columns: vec![
            Column {
                name: "total".to_string(),
                table: None,
                expression: Some("a.x+a.y".to_string()),
                readonly: true,
            },
            Column {
                name: "symbol".to_string(),
                table: Some("u".to_string()),
                expression: None,
                readonly: true,
            },
            Column { name: "code".to_string(), table: None, expression: None, readonly: false },
        ],
        relations: vec![],
    };
    let (_, _, _, branches) = sql(&s);
    assert_eq!(branches.len(), 1);
    assert_eq!(branches[0].table, "articles a");
    assert_eq!(branches[0].select, "a.id,a.x+a.y,u.symbol,a.code");
    assert_eq!(branches[0].from, " LEFT JOIN units u ON a.unit=u.id");
}

#[test]
fn point_lookup_unions_every_arm_and_orders_by_key_positions() {
    let s = deep_schema();
    let (q, params) = get_by_pk_sql(&s);
    assert_eq!(params, 3);
    let arm1 = "SELECT parent.id,parent.name,NULL,NULL,NULL,NULL FROM parent  WHERE parent.id=?";
    let arm2 = "SELECT parent.id,parent.name,child.id,child.label,NULL,NULL FROM parent  LEFT JOIN child ON parent.id=child.parent_id  WHERE parent.id=?";
    let arm3 = "SELECT parent.id,parent.name,child.id,child.label,grand.id,grand.g FROM parent  LEFT JOIN child ON parent.id=child.parent_id  LEFT JOIN grand ON child.id=grand.child_id  WHERE parent.id=?";
    let expected = format!("{} UNION ALL {} UNION ALL {} ORDER BY 1,3,5;", arm1, arm2, arm3);
    assert_eq!(q, expected);
}

#[test]
fn order_by_selector_picks_column_and_direction() {
    let cols = vec!["name".to_string(), "code".to_string()];
    assert_eq!(sql_order_by(0, &cols, "SELECT 1", ";"), Ok("SELECT 1;".to_string()));
    assert_eq!(
        sql_order_by(1, &cols, "SELECT 1", ";"),
        Ok("SELECT 1 ORDER BY name ASC ;".to_string())
    );
    assert_eq!(
        sql_order_by(2, &cols, "SELECT 1", ";"),
        Ok("SELECT 1 ORDER BY name DESC ;".to_string())
    );
    assert_eq!(
        sql_order_by(4, &cols, "SELECT 1", ";"),
        Ok("SELECT 1 ORDER BY code DESC ;".to_string())
    );
    assert_eq!(sql_order_by(5, &cols, "SELECT 1", ";"), Err(()));
}

fn row(cells: Vec<DbValue>) -> Vec<DbValue> {
    cells
}

#[test]
fn collector_rebuilds_a_two_level_tree_from_ordered_rows() {
    let s = deep_schema();
    let t = |x: &str| DbValue::Text(x.to_string());
    let rows = vec![
        row(vec![DbValue::Int(1), t("p1"), DbValue::Null, DbValue::Null, DbValue::Null, DbValue::Null]),
        row(vec![DbValue::Int(1), t("p1"), DbValue::Int(5), t("c5"), DbValue::Null, DbValue::Null]),
        row(vec![DbValue::Int(1), t("p1"), DbValue::Int(5), t("c5"), DbValue::Int(7), t("g7")]),
        row(vec![DbValue::Int(1), t("p1"), DbValue::Int(5), t("c5"), DbValue::Int(8), t("g8")]),
        row(vec![DbValue::Int(1), t("p1"), DbValue::Int(6), t("c6"), DbValue::Null, DbValue::Null]),
        row(vec![DbValue::Int(2), t("p2"), DbValue::Null, DbValue::Null, DbValue::Null, DbValue::Null]),
    ];
    let out = vec_from_rows(&s, &rows);
    assert_eq!(out.len(), 2);
    let p1 = &out[0];
    assert_eq!(p1.pk, Some(1));
    assert_eq!(p1.values, vec![t("p1")]);
    assert_eq!(p1.children.len(), 1);
    let kids = &p1.children[0];
    assert_eq!(kids.len(), 2);
    assert_eq!(kids[0].pk, Some(5));
    assert_eq!(kids[0].values, vec![t("c5")]);
    let grands = &kids[0].children[0];
    assert_eq!(grands.len(), 2);
    assert_eq!(grands[0].pk, Some(7));
    assert_eq!(grands[0].values, vec![t("g7")]);
    assert_eq!(grands[1].pk, Some(8));
    assert_eq!(grands[1].values, vec![t("g8")]);
    assert_eq!(kids[1].pk, Some(6));
    assert_eq!(kids[1].values, vec![t("c6")]);
    assert_eq!(kids[1].children[0].len(), 0);
    let p2 = &out[1];
    assert_eq!(p2.pk, Some(2));
    assert_eq!(p2.values, vec![t("p2")]);
    assert_eq!(p2.children[0].len(), 0);
}

#[test]
fn reading_the_same_rows_twice_yields_identical_graphs() {
    let s = grand_schema();
    let rows = vec![
        row(vec![DbValue::UInt(4), DbValue::Text("a".to_string())]),
        row(vec![DbValue::UInt(9), DbValue::Text("b".to_string())]),
    ];
    let first = vec_from_rows(&s, &rows);
    let second = vec_from_rows(&s, &rows);
    assert_eq!(first.len(), second.len());
    for (x, y) in first.iter().zip(second.iter()) {
        assert_eq!(x.pk, y.pk);
        assert_eq!(x.values, y.values);
    }
}

#[test]
fn collector_ignores_rows_of_unrelated_arms() {
    let s = grand_schema();
    let mut c = DataCollector::new(0);
    let blank = row(vec![DbValue::Null, DbValue::Null]);
    c.push_next(&s, &blank);
    let real = row(vec![DbValue::UInt(3), DbValue::Text("x".to_string())]);
    c.push_next(&s, &real);
    let out = c.build();
    assert_eq!(out.len(), 1);
    assert_eq!(out[0].pk, Some(3));
}

#[test]
fn collector_splits_two_relations_of_one_parent() {
    let leaf = |table: &str, col: &str| Schema {
        table: table.to_string(),
        from: table.to_string(),
        joins: String::new(),
        pk: "id".to_string(),
        columns: vec![Column {
            name: col.to_string(),
            table: None,
            expression: None,
            readonly: false,
        }],
        relations: vec![],
    };
    let s = Schema {
        table: "p".to_string(),
        from: "p".to_string(),
        joins: String::new(),
        pk: "id".to_string(),
        columns: vec![Column {
            name: "name".to_string(),
            table: None,
            expression: None,
            readonly: false,
        }],
        relations: vec![
            Relation { fk: "p_id".to_string(), schema: leaf("a", "x") },
            Relation { fk: "p_id".to_string(), schema: leaf("b", "y") },
        ],
    };
    assert_eq!(width(&s), 6);
    let t = |x: &str| DbValue::Text(x.to_string());
    let n = || DbValue::Null;
    // ordered as the generated ORDER BY sorts them: NULL keys first
    let rows = vec![
        vec![DbValue::Int(1), t("p1"), n(), n(), n(), n()],
        vec![DbValue::Int(1), t("p1"), n(), n(), DbValue::Int(8), t("b8")],
        vec![DbValue::Int(1), t("p1"), DbValue::Int(4), t("a4"), n(), n()],
        vec![DbValue::Int(1), t("p1"), DbValue::Int(5), t("a5"), n(), n()],
    ];
    let out = vec_from_rows(&s, &rows);
    assert_eq!(out.len(), 1);
    let p = &out[0];
    assert_eq!(p.pk, Some(1));
    assert_eq!(p.children.len(), 2);
    assert_eq!(p.children[0].len(), 2);
    assert_eq!(p.children[0][0].pk, Some(4));
    assert_eq!(p.children[0][0].values, vec![t("a4")]);
    assert_eq!(p.children[0][1].pk, Some(5));
    assert_eq!(p.children[1].len(), 1);
    assert_eq!(p.children[1][0].pk, Some(8));
    assert_eq!(p.children[1][0].values, vec![t("b8")]);
}
