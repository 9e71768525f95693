use mysql_async_orm::entity::Entity;
use mysql_async_orm::schema::{
    get_db_model, get_table_from, FieldDef, FromAttributes, JoinDef, RelationAttribute,
    RelationDef, Schema, SchemaError,
};
use mysql_async_orm::values::{i64_to_dec, u64_to_dec, DBDate, DBDateTime, DBTime, DbValue};

fn from_attr(name: &str) -> FromAttributes {
    FromAttributes { attr: Some(name.to_string()), column: None, expression: None, table: None }
}

fn plain_field(name: &str) -> FieldDef {
    FieldDef {
        rs_name: name.to_string(),
        from: None,
        pk: false,
        readonly: false,
        relation: None,
    }
}

fn pk_field(name: &str) -> FieldDef {
    FieldDef { rs_name: name.to_string(), from: None, pk: true, readonly: false, relation: None }
}

fn leaf_schema(table: &str) -> Schema {
    get_db_model(from_attr(table), vec![], vec![pk_field("id"), plain_field("v")]).unwrap()
}

#[test]
fn builds_a_schema_with_joins_relations_and_overrides() {
    let joins = vec![JoinDef {
        table: "units".to_string(),
        alias: "u".to_string(),
        on: "t.unit=u.id".to_string(),
    }];
    let fields = vec![
        FieldDef {
            rs_name: "id".to_string(),
            from: None,
            pk: true,
            readonly: false,
            relation: None,
        },
        FieldDef {
            rs_name: "giorni_di_riordino".to_string(),
            from: Some(FromAttributes {
                attr: Some("giorni_riordino".to_string()),
                column: None,
                expression: None,
                table: None,
            }),
            pk: false,
            readonly: false,
            relation: None,
        },
        FieldDef {
            rs_name: "symbol".to_string(),
            from: Some(FromAttributes {
                attr: None,
                column: Some("simbolo".to_string()),
                expression: None,
                table: Some("u".to_string()),
            }),
            pk: false,
            readonly: true,
            relation: None,
        },
        FieldDef {
            rs_name: "rows".to_string(),
            from: None,
            pk: false,
            readonly: false,
            relation: Some(RelationDef {
                attr: RelationAttribute { fk: "t_id".to_string() },
                schema: leaf_schema("sub"),
            }),
        },
    ];
    let s = get_db_model(
        FromAttributes {
            attr: Some("tbl".to_string()),
            column: None,
            expression: None,
            table: Some("t".to_string()),
        },
        joins,
        fields,
    )
    .unwrap();
    assert_eq!(s.from, "tbl");
    assert_eq!(s.table, "t");
    assert_eq!(s.joins, " LEFT JOIN units u ON t.unit=u.id");
    assert_eq!(s.pk, "id");
    assert_eq!(s.columns.len(), 2);
    assert_eq!(s.columns[0].name, "giorni_riordino");
    assert!(!s.columns[0].readonly);
    assert_eq!(s.columns[1].name, "simbolo");
    assert_eq!(s.columns[1].table.as_deref(), Some("u"));
    assert!(s.columns[1].readonly);
    assert_eq!(s.relations.len(), 1);
    assert_eq!(s.relations[0].fk, "t_id");
    assert_eq!(s.relations[0].schema.table, "sub");
}

#[test]
fn missing_from_is_refused() {
    let r = get_table_from(
        FromAttributes { attr: None, column: None, expression: None, table: None },
        &vec![],
    );
    assert!(matches!(r, Err(SchemaError::MissingFrom)));
}

#[test]
fn missing_primary_key_is_refused() {
    let r = get_db_model(from_attr("t"), vec![], vec![plain_field("a")]);
    assert!(matches!(r, Err(SchemaError::MissingPrimaryKey)));
}

#[test]
fn duplicate_primary_key_is_refused() {
    let r = get_db_model(from_attr("t"), vec![], vec![pk_field("a"), pk_field("b")]);
    assert!(matches!(r, Err(SchemaError::DuplicatePrimaryKey)));
}

#[test]
fn readonly_primary_key_is_refused() {
    let mut f = pk_field("id");
    f.readonly = true;
    let r = get_db_model(from_attr("t"), vec![], vec![f]);
    assert!(matches!(r, Err(SchemaError::ReadonlyPrimaryKey)));
}

#[test]
fn foreign_table_column_must_be_readonly() {
    let f = FieldDef {
        rs_name: "symbol".to_string(),
        from: Some(FromAttributes {
            attr: None,
            column: None,
            expression: None,
            table: Some("u".to_string()),
        }),
        pk: false,
        readonly: false,
        relation: None,
    };
    let r = get_db_model(from_attr("t"), vec![], vec![pk_field("id"), f]);
    match r {
        Err(SchemaError::ForeignTableNotReadonly(name)) => assert_eq!(name, "symbol"),
        _ => panic!("expected a foreign-table violation"),
    }
}

#[test]
fn expression_column_must_be_readonly() {
    let f = FieldDef {
        rs_name: "total".to_string(),
        from: Some(FromAttributes {
            attr: None,
            column: None,
            expression: Some("t.a+t.b".to_string()),
            table: None,
        }),
        pk: false,
        readonly: false,
        relation: None,
    };
    let r = get_db_model(from_attr("t"), vec![], vec![pk_field("id"), f]);
    match r {
        Err(SchemaError::ExpressionNotReadonly(name)) => assert_eq!(name, "total"),
        _ => panic!("expected an expression violation"),
    }
}

#[test]
fn decimal_rendering_is_exact() {
    assert_eq!(u64_to_dec(0), "0");
    assert_eq!(u64_to_dec(907), "907");
    assert_eq!(u64_to_dec(u64::MAX), "18446744073709551615");
    assert_eq!(i64_to_dec(0), "0");
    assert_eq!(i64_to_dec(-1), "-1");
    assert_eq!(i64_to_dec(i64::MIN), "-9223372036854775808");
    assert_eq!(i64_to_dec(i64::MAX), "9223372036854775807");
}

#[test]
fn pk_cells_accept_non_negative_integers_only() {
    assert_eq!(DbValue::Int(5).as_pk(), Some(5));
    assert_eq!(DbValue::UInt(7).as_pk(), Some(7));
    assert_eq!(DbValue::Int(-1).as_pk(), None);
    assert_eq!(DbValue::Null.as_pk(), None);
    assert_eq!(DbValue::Text("3".to_string()).as_pk(), None);
}

#[test]
fn entity_reports_its_key() {
    let e = Entity { pk: Some(11), values: vec![], children: vec![] };
    assert_eq!(e.get_pk(), Some(11));
    let n = Entity { pk: None, values: vec![], children: vec![] };
    assert_eq!(n.get_pk(), None);
}

#[test]
fn time_values_fold_days_into_hours() {
    assert_eq!(DBTime::from_wire(false, 2, 3, 4, 5), Some(DBTime(51, 4, 5)));
    assert_eq!(DBTime::from_wire(true, 1, 6, 0, 0), Some(DBTime(-30, 0, 0)));
    assert_eq!(DBTime::from_wire(false, 5000, 0, 0, 0), None);
    assert_eq!(DBTime(-30, 7, 8).to_wire(), (true, 30, 7, 8));
    assert_eq!(DBTime(12, 0, 1).to_wire(), (false, 12, 0, 1));
}

#[test]
fn date_years_clamp_to_the_wire_range() {
    assert_eq!(DBDate::from_wire(1999, 12, 31), DBDate(1999, 12, 31));
    assert_eq!(DBDate(-5, 1, 2).to_wire(), (0, 1, 2));
    assert_eq!(DBDate(70000, 1, 2).to_wire(), (65535, 1, 2));
    assert_eq!(DBDateTime::from_wire(2020, 2, 29, 1, 2, 3), DBDateTime(2020, 2, 29, 1, 2, 3));
    let v = DBDateTime(-1, 3, 4, 5, 6, 7).to_value();
    assert_eq!(v, DbValue::DateTime(0, 3, 4, 5, 6, 7));
}
