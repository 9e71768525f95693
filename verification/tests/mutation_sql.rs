use mysql_async_orm::entity::Entity;
use mysql_async_orm::mutation::{
    insert_batch_sql, insert_param_rows, insert_param_sql, insert_param_sql_with_fk,
    prepare_delete, prepare_insert, prepare_update,
};
use mysql_async_orm::schema::{Column, Relation, Schema};
use mysql_async_orm::values::DbValue;

fn child_schema() -> Schema {
    Schema {
        table: "child".to_string(),
        from: "child".to_string(),
        joins: String::new(),
        pk: "id".to_string(),
        columns: vec![Column {
            name: "label".to_string(),
            table: None,
            expression: None,
            readonly: false,
        }],
        relations: Vec::new(),
    }
}

fn parent_schema() -> Schema {
    Schema {
        table: "parent".to_string(),
        from: "parent".to_string(),
        joins: String::new(),
        pk: "id".to_string(),
        columns: vec![Column {
            name: "name".to_string(),
            table: None,
            expression: None,
            readonly: false,
        }],
        relations: vec![Relation { fk: "parent_id".to_string(), schema: child_schema() }],
    }
}

fn child(pk: Option<u64>, label: &str) -> Entity {
    Entity {
        pk,
        values: vec![DbValue::Text(label.to_string())],
        children: vec![],
    }
}

fn parent(pk: Option<u64>, name: &str, kids: Vec<Entity>) -> Entity {
    Entity {
        pk,
        values: vec![DbValue::Text(name.to_string())],
        children: vec![kids],
    }
}

#[test]
fn insert_parent_with_two_children_chains_ids_in_preorder() {
    let s = parent_schema();
    let e = parent(None, "root", vec![child(None, "a"), child(None, "b")]);
    let mut q = String::new();
    let next = prepare_insert(&s, None, &e, &mut q, 0);
    assert_eq!(next, 3);
    assert_eq!(
        q,
        "INSERT INTO parent (name) VALUES ('root');SET @id_1 = LAST_INSERT_ID();\
         INSERT INTO child (parent_id,label) VALUES (@id_1,'a');SET @id_2 = LAST_INSERT_ID();\
         INSERT INTO child (parent_id,label) VALUES (@id_1,'b');SET @id_3 = LAST_INSERT_ID();"
    );
}

#[test]
fn insert_batch_reports_the_root_id() {
    let s = child_schema();
    let e = child(None, "only");
    let q = insert_batch_sql(&s, &e);
    assert_eq!(
        q,
        "INSERT INTO child (label) VALUES ('only');SET @id_1 = LAST_INSERT_ID();SELECT @id_1;"
    );
}

#[test]
fn insert_skips_an_already_identified_entity() {
    let s = child_schema();
    let e = child(Some(9), "kept");
    let mut q = String::new();
    let next = prepare_insert(&s, None, &e, &mut q, 0);
    assert_eq!(next, 0);
    assert_eq!(q, "");
}

#[test]
fn insert_escapes_string_values() {
    let s = child_schema();
    let e = child(None, "O'Brien \\;x");
    let mut q = String::new();
    prepare_insert(&s, None, &e, &mut q, 0);
    assert_eq!(
        q,
        "INSERT INTO child (label) VALUES ('O\\'Brien \\\\;x');SET @id_1 = LAST_INSERT_ID();"
    );
}

#[test]
fn insert_renders_every_scalar_kind() {
    let s = Schema {
        table: "t".to_string(),
        from: "t".to_string(),
        joins: String::new(),
        pk: "id".to_string(),
        columns: vec![
            Column { name: "a".to_string(), table: None, expression: None, readonly: false },
            Column { name: "b".to_string(), table: None, expression: None, readonly: false },
            Column { name: "c".to_string(), table: None, expression: None, readonly: false },
            Column { name: "d".to_string(), table: None, expression: None, readonly: false },
            Column { name: "e".to_string(), table: None, expression: None, readonly: false },
        ],
        relations: vec![],
    };
    let e = Entity {
        pk: None,
        values: vec![
            DbValue::Null,
            DbValue::Int(-42),
            DbValue::UInt(7),
            DbValue::DateTime(2024, 3, 9, 0, 0, 0),
            DbValue::DateTime(987, 12, 31, 23, 5, 6),
        ],
        children: vec![],
    };
    let mut q = String::new();
    prepare_insert(&s, None, &e, &mut q, 0);
    assert_eq!(
        q,
        "INSERT INTO t (a,b,c,d,e) VALUES (NULL,-42,7,'2024-03-09','0987-12-31 23:05:06');\
         SET @id_1 = LAST_INSERT_ID();"
    );
}

#[test]
fn readonly_columns_stay_out_of_inserts() {
    let s = Schema {
        table: "t".to_string(),
        from: "t".to_string(),
        joins: String::new(),
        pk: "id".to_string(),
        columns: vec![
            Column { name: "w".to_string(), table: None, expression: None, readonly: false },
            Column {
                name: "r".to_string(),
                table: Some("other".to_string()),
                expression: None,
                readonly: true,
            },
        ],
        relations: vec![],
    };
    let e = Entity {
        pk: None,
        values: vec![DbValue::Int(1), DbValue::Int(2)],
        children: vec![],
    };
    let mut q = String::new();
    prepare_insert(&s, None, &e, &mut q, 0);
    assert_eq!(q, "INSERT INTO t (w) VALUES (1);SET @id_1 = LAST_INSERT_ID();");
}

#[test]
fn update_diff_emits_one_insert_one_update_one_delete() {
    let s = parent_schema();
    let n = parent(Some(10), "p2", vec![child(Some(5), "x"), child(None, "new")]);
    let o = parent(Some(10), "p", vec![child(Some(5), "old"), child(Some(6), "bye")]);
    let mut q = String::new();
    let next = prepare_update(&s, None, &n, &o, &mut q, 0);
    assert_eq!(next, 4);
    assert_eq!(
        q,
        "SET @id_1=10;UPDATE parent SET name='p2' WHERE id=@id_1;\
         SET @id_2=5;UPDATE child SET label='x' WHERE id=@id_2 AND parent_id=@id_1;\
         INSERT INTO child (parent_id,label) VALUES (@id_1,'new');SET @id_3 = LAST_INSERT_ID();\
         SET @id_4=6;DELETE FROM child WHERE id=@id_4 AND parent_id=@id_1;"
    );
}

#[test]
fn update_without_key_emits_nothing() {
    let s = parent_schema();
    let n = parent(None, "x", vec![]);
    let o = parent(Some(1), "y", vec![]);
    let mut q = String::new();
    let next = prepare_update(&s, None, &n, &o, &mut q, 0);
    assert_eq!(next, 0);
    assert_eq!(q, "");
}

#[test]
fn update_with_only_readonly_columns_still_cascades() {
    let child_ro = Schema {
        table: "c".to_string(),
        from: "c".to_string(),
        joins: String::new(),
        pk: "id".to_string(),
        columns: vec![Column {
            name: "v".to_string(),
            table: None,
            expression: None,
            readonly: false,
        }],
        relations: vec![],
    };
    let s = Schema {
        table: "p".to_string(),
        from: "p".to_string(),
        joins: String::new(),
        pk: "id".to_string(),
        columns: vec![Column {
            name: "x".to_string(),
            table: None,
            expression: Some("p.a+p.b".to_string()),
            readonly: true,
        }],
        relations: vec![Relation { fk: "p_id".to_string(), schema: child_ro }],
    };
    let n = Entity {
        pk: Some(3),
        values: vec![DbValue::Int(0)],
        children: vec![vec![Entity {
            pk: None,
            values: vec![DbValue::Int(8)],
            children: vec![],
        }]],
    };
    let o = Entity { pk: Some(3), values: vec![DbValue::Int(0)], children: vec![vec![]] };
    let mut q = String::new();
    prepare_update(&s, None, &n, &o, &mut q, 0);
    assert_eq!(
        q,
        "SET @id_1=3;INSERT INTO c (p_id,v) VALUES (@id_1,8);SET @id_2 = LAST_INSERT_ID();"
    );
}

#[test]
fn delete_removes_children_before_the_parent() {
    let s = parent_schema();
    let o = parent(Some(10), "p", vec![child(Some(5), "a"), child(Some(6), "b")]);
    let mut q = String::new();
    let next = prepare_delete(&s, None, &o, &mut q, 0);
    assert_eq!(next, 3);
    assert_eq!(
        q,
        "SET @id_1=10;\
         SET @id_2=5;DELETE FROM child WHERE id=@id_2 AND parent_id=@id_1;\
         SET @id_3=6;DELETE FROM child WHERE id=@id_3 AND parent_id=@id_1;\
         DELETE FROM parent WHERE id=@id_1;"
    );
}

#[test]
fn delete_without_key_emits_nothing() {
    let s = child_schema();
    let e = child(None, "ghost");
    let mut q = String::new();
    let next = prepare_delete(&s, None, &e, &mut q, 0);
    assert_eq!(next, 0);
    assert_eq!(q, "");
}

#[test]
fn parameterized_insert_statements() {
    let s = child_schema();
    assert_eq!(insert_param_sql(&s), "INSERT INTO child (label) VALUES (?);");
    assert_eq!(
        insert_param_sql_with_fk(&s, "parent_id"),
        "INSERT INTO child (parent_id,label) VALUES (?,?);"
    );
    let kids = vec![child(Some(1), "kept"), child(None, "fresh")];
    let rows = insert_param_rows(&s, &kids, 9);
    assert_eq!(rows.len(), 1);
    assert_eq!(rows[0], vec![DbValue::UInt(9), DbValue::Text("fresh".to_string())]);
}
