//! The schema model: a runtime description of an entity's table, primary
//! key, columns and one-to-many relations, and the validating builder that
//! constructs it from field declarations.

use vstd::prelude::*;

verus! {

/// The per-field storage attribute of a declaration: an optional storage
/// name, and optional overrides for the column name, a derived SQL
/// expression, and a foreign table alias.
#[derive(Debug, Clone)]
pub struct FromAttributes {
    pub attr: Option<String>,
    pub column: Option<String>,
    pub expression: Option<String>,
    pub table: Option<String>,
}

/// The per-field relation attribute: the foreign-key column that binds a
/// child row to its parent.
#[derive(Debug, Clone)]
pub struct RelationAttribute {
    pub fk: String,
}

/// One static join of an entity's FROM clause: table, alias, ON condition.
#[derive(Debug, Clone)]
pub struct JoinDef {
    pub table: String,
    pub alias: String,
    pub on: String,
}

/// A non-key column of a schema: storage name, optional foreign table alias,
/// optional derived SQL expression, read-only flag.
#[derive(Debug, Clone)]
pub struct Column {
    pub name: String,
    pub table: Option<String>,
    pub expression: Option<String>,
    pub readonly: bool,
}

/// A one-to-many relation: the foreign-key column on the child table, and
/// the child's own schema.
#[derive(Debug)]
pub struct Relation {
    pub fk: String,
    pub schema: Schema,
}

/// An entity's schema: the table alias used to qualify columns, the FROM
/// table, the static join text, the primary key's storage name, the ordered
/// non-key columns and the ordered relations.
#[derive(Debug)]
pub struct Schema {
    pub table: String,
    pub from: String,
    pub joins: String,
    pub pk: String,
    pub columns: Vec<Column>,
    pub relations: Vec<Relation>,
}

/// Mathematical model of a [`Column`].
#[verifier::ext_equal]
pub struct ColumnView {
    pub name: Seq<char>,
    pub table: Option<Seq<char>>,
    pub expression: Option<Seq<char>>,
    pub readonly: bool,
}

/// Mathematical model of a [`Relation`].
#[verifier::ext_equal]
pub struct RelationView {
    pub fk: Seq<char>,
    pub schema: SchemaView,
}

/// Mathematical model of a [`Schema`].
#[verifier::ext_equal]
pub struct SchemaView {
    pub table: Seq<char>,
    pub from: Seq<char>,
    pub joins: Seq<char>,
    pub pk: Seq<char>,
    pub columns: Seq<ColumnView>,
    pub relations: Seq<RelationView>,
}

impl View for Column {
    type V = ColumnView;

    open spec fn view(&self) -> ColumnView {
        ColumnView {
            name: self.name@,
            table: match self.table {
                Some(t) => Some(t@),
                None => None,
            },
            expression: match self.expression {
                Some(e) => Some(e@),
                None => None,
            },
            readonly: self.readonly,
        }
    }
}

/// The views of a relation list, in order.
pub open spec fn spec_rel_views(rs: Seq<Relation>) -> Seq<RelationView>
    decreases rs,
{
    if rs.len() == 0 {
        Seq::empty()
    } else {
        spec_rel_views(rs.drop_last()).push(
            RelationView { fk: rs.last().fk@, schema: spec_schema_view(rs.last().schema) },
        )
    }
}

/// The view of a schema tree.
pub open spec fn spec_schema_view(s: Schema) -> SchemaView
    decreases s,
{
    SchemaView {
        table: s.table@,
        from: s.from@,
        joins: s.joins@,
        pk: s.pk@,
        columns: Seq::new(s.columns@.len(), |i: int| s.columns@[i]@),
        relations: spec_rel_views(s.relations@),
    }
}

impl View for Schema {
    type V = SchemaView;

    open spec fn view(&self) -> SchemaView {
        spec_schema_view(*self)
    }
}

impl View for Relation {
    type V = RelationView;

    open spec fn view(&self) -> RelationView {
        RelationView { fk: self.fk@, schema: spec_schema_view(self.schema) }
    }
}

/// The views of a relation list agree index-wise with the list.
pub proof fn lemma_rel_views(rs: Seq<Relation>)
    ensures
        spec_rel_views(rs).len() == rs.len(),
        forall|i: int| 0 <= i < rs.len() ==> #[trigger] spec_rel_views(rs)[i] == rs[i]@,
    decreases rs.len(),
{
    if rs.len() > 0 {
        lemma_rel_views(rs.drop_last());
        assert forall|i: int| 0 <= i < rs.len() implies #[trigger] spec_rel_views(rs)[i]
            == rs[i]@ by {
            if i < rs.len() - 1 {
                assert(rs.drop_last()[i] == rs[i]);
            }
        }
    }
}

} // verus!

verus! {

/// Mathematical model of a [`FromAttributes`].
#[verifier::ext_equal]
pub struct FromAttributesView {
    pub attr: Option<Seq<char>>,
    pub column: Option<Seq<char>>,
    pub expression: Option<Seq<char>>,
    pub table: Option<Seq<char>>,
}

impl View for FromAttributes {
    type V = FromAttributesView;

    open spec fn view(&self) -> FromAttributesView {
        FromAttributesView {
            attr: match self.attr {
                Some(a) => Some(a@),
                None => None,
            },
            column: match self.column {
                Some(c) => Some(c@),
                None => None,
            },
            expression: match self.expression {
                Some(e) => Some(e@),
                None => None,
            },
            table: match self.table {
                Some(t) => Some(t@),
                None => None,
            },
        }
    }
}

/// Mathematical model of a [`JoinDef`].
#[verifier::ext_equal]
pub struct JoinDefView {
    pub table: Seq<char>,
    pub alias: Seq<char>,
    pub on: Seq<char>,
}

impl View for JoinDef {
    type V = JoinDefView;

    open spec fn view(&self) -> JoinDefView {
        JoinDefView { table: self.table@, alias: self.alias@, on: self.on@ }
    }
}

impl DeepView for JoinDef {
    type V = JoinDefView;

    open spec fn deep_view(&self) -> JoinDefView {
        self@
    }
}

/// A malformed entity declaration; fatal at schema-construction time.
#[derive(Debug)]
pub enum SchemaError {
    /// The declaration names no FROM table.
    MissingFrom,
    /// No field is marked as the primary key.
    MissingPrimaryKey,
    /// More than one field is marked as the primary key.
    DuplicatePrimaryKey,
    /// The primary key is marked read-only.
    ReadonlyPrimaryKey,
    /// The named field draws from a foreign table but is not read-only.
    ForeignTableNotReadonly(String),
    /// The named field is backed by an expression but is not read-only.
    ExpressionNotReadonly(String),
}

/// Mathematical model of a [`SchemaError`].
#[verifier::ext_equal]
pub enum SchemaErrorView {
    MissingFrom,
    MissingPrimaryKey,
    DuplicatePrimaryKey,
    ReadonlyPrimaryKey,
    ForeignTableNotReadonly(Seq<char>),
    ExpressionNotReadonly(Seq<char>),
}

impl View for SchemaError {
    type V = SchemaErrorView;

    open spec fn view(&self) -> SchemaErrorView {
        match self {
            SchemaError::MissingFrom => SchemaErrorView::MissingFrom,
            SchemaError::MissingPrimaryKey => SchemaErrorView::MissingPrimaryKey,
            SchemaError::DuplicatePrimaryKey => SchemaErrorView::DuplicatePrimaryKey,
            SchemaError::ReadonlyPrimaryKey => SchemaErrorView::ReadonlyPrimaryKey,
            SchemaError::ForeignTableNotReadonly(n) => SchemaErrorView::ForeignTableNotReadonly(n@),
            SchemaError::ExpressionNotReadonly(n) => SchemaErrorView::ExpressionNotReadonly(n@),
        }
    }
}

/// A relation declaration: the relation attribute and the child's schema.
#[derive(Debug)]
pub struct RelationDef {
    pub attr: RelationAttribute,
    pub schema: Schema,
}

/// One field of an entity declaration.
#[derive(Debug)]
pub struct FieldDef {
    pub rs_name: String,
    pub from: Option<FromAttributes>,
    pub pk: bool,
    pub readonly: bool,
    pub relation: Option<RelationDef>,
}

/// Mathematical model of a [`FieldDef`].
#[verifier::ext_equal]
pub struct FieldDefView {
    pub rs_name: Seq<char>,
    pub from: Option<FromAttributesView>,
    pub pk: bool,
    pub readonly: bool,
    pub relation: Option<RelationView>,
}

impl View for FieldDef {
    type V = FieldDefView;

    open spec fn view(&self) -> FieldDefView {
        FieldDefView {
            rs_name: self.rs_name@,
            from: match self.from {
                Some(f) => Some(f@),
                None => None,
            },
            pk: self.pk,
            readonly: self.readonly,
            relation: match self.relation {
                Some(r) => Some(
                    RelationView { fk: r.attr.fk@, schema: spec_schema_view(r.schema) },
                ),
                None => None,
            },
        }
    }
}

/// The views of a field list, in order.
pub open spec fn spec_field_views(fs: Seq<FieldDef>) -> Seq<FieldDefView>
    decreases fs,
{
    if fs.len() == 0 {
        Seq::empty()
    } else {
        spec_field_views(fs.drop_last()).push(fs.last()@)
    }
}

/// The views of a field list agree index-wise with the list.
pub proof fn lemma_field_views(fs: Seq<FieldDef>)
    ensures
        spec_field_views(fs).len() == fs.len(),
        forall|i: int| 0 <= i < fs.len() ==> #[trigger] spec_field_views(fs)[i] == fs[i]@,
    decreases fs,
{
    if fs.len() > 0 {
        lemma_field_views(fs.drop_last());
        assert forall|i: int| 0 <= i < fs.len() implies #[trigger] spec_field_views(fs)[i]
            == fs[i]@ by {
            if i < fs.len() - 1 {
                assert(fs.drop_last()[i] == fs[i]);
            }
        }
    }
}

/// The storage name a field maps to: an explicit `column` override, else the
/// attribute's positional name, else the field's own name.
pub open spec fn spec_field_name(rs_name: Seq<char>, from: Option<FromAttributesView>) -> Seq<
    char,
> {
    match from {
        Some(f) => match f.column {
            Some(c) => c,
            None => match f.attr {
                Some(a) => a,
                None => rs_name,
            },
        },
        None => rs_name,
    }
}

/// Running state of the field scan: the primary key name found so far, and
/// the columns and relations gathered so far.
#[verifier::ext_equal]
pub struct ScanState {
    pub pk: Option<Seq<char>>,
    pub columns: Seq<ColumnView>,
    pub relations: Seq<RelationView>,
}

/// How one field declaration extends the scan state, or fails it.
pub open spec fn spec_scan_field(st: ScanState, f: FieldDefView) -> Result<
    ScanState,
    SchemaErrorView,
> {
    if f.pk {
        if st.pk is Some {
            Err(SchemaErrorView::DuplicatePrimaryKey)
        } else if f.readonly {
            Err(SchemaErrorView::ReadonlyPrimaryKey)
        } else {
            Ok(ScanState { pk: Some(spec_field_name(f.rs_name, f.from)), ..st })
        }
    } else if f.relation is Some {
        Ok(ScanState { relations: st.relations.push(f.relation->Some_0), ..st })
    } else {
        let has_table = f.from is Some && f.from->Some_0.table is Some;
        let has_expression = f.from is Some && f.from->Some_0.expression is Some;
        if !f.readonly && has_table {
            Err(SchemaErrorView::ForeignTableNotReadonly(f.rs_name))
        } else if !f.readonly && has_expression {
            Err(SchemaErrorView::ExpressionNotReadonly(f.rs_name))
        } else {
            Ok(
                ScanState {
                    columns: st.columns.push(
                        ColumnView {
                            name: spec_field_name(f.rs_name, f.from),
                            table: match f.from {
                                Some(fa) => fa.table,
                                None => None,
                            },
                            expression: match f.from {
                                Some(fa) => fa.expression,
                                None => None,
                            },
                            readonly: f.readonly,
                        },
                    ),
                    ..st
                },
            )
        }
    }
}

/// The scan folded over a field list, stopping at the first failure.
pub open spec fn spec_scan(st: ScanState, fs: Seq<FieldDefView>) -> Result<
    ScanState,
    SchemaErrorView,
>
    decreases fs.len(),
{
    if fs.len() == 0 {
        Ok(st)
    } else {
        match spec_scan_field(st, fs[0]) {
            Ok(st2) => spec_scan(st2, fs.drop_first()),
            Err(e) => Err(e),
        }
    }
}

/// The empty scan state.
pub open spec fn spec_scan_init() -> ScanState {
    ScanState { pk: None, columns: Seq::empty(), relations: Seq::empty() }
}

/// The schema a declaration builds, or the first error in field order; a
/// missing primary key is reported only after every field passed.
pub open spec fn spec_build_schema(tf: TableFromView, fs: Seq<FieldDefView>) -> Result<
    SchemaView,
    SchemaErrorView,
> {
    match spec_scan(spec_scan_init(), fs) {
        Ok(st) => match st.pk {
            Some(pk) => Ok(
                SchemaView {
                    table: tf.table,
                    from: tf.from,
                    joins: tf.joins,
                    pk: pk,
                    columns: st.columns,
                    relations: st.relations,
                },
            ),
            None => Err(SchemaErrorView::MissingPrimaryKey),
        },
        Err(e) => Err(e),
    }
}

/// The FROM part of a schema: FROM table, qualifying alias, static joins.
#[derive(Debug, Clone)]
pub struct TableFrom {
    pub from: String,
    pub table: String,
    pub joins: String,
}

/// Mathematical model of a [`TableFrom`].
#[verifier::ext_equal]
pub struct TableFromView {
    pub from: Seq<char>,
    pub table: Seq<char>,
    pub joins: Seq<char>,
}

impl View for TableFrom {
    type V = TableFromView;

    open spec fn view(&self) -> TableFromView {
        TableFromView { from: self.from@, table: self.table@, joins: self.joins@ }
    }
}

/// The join text a join list renders to.
pub open spec fn spec_joins_text(js: Seq<JoinDefView>) -> Seq<char>
    decreases js.len(),
{
    if js.len() == 0 {
        Seq::empty()
    } else {
        spec_joins_text(js.drop_last()) + " LEFT JOIN "@ + js.last().table + " "@
            + js.last().alias + " ON "@ + js.last().on
    }
}

/// The FROM part a declaration maps to, or the error when it names no
/// FROM table.
pub open spec fn spec_table_from(attr: FromAttributesView, js: Seq<JoinDefView>) -> Result<
    TableFromView,
    SchemaErrorView,
> {
    match attr.attr {
        Some(from) => Ok(
            TableFromView {
                from: from,
                table: match attr.table {
                    Some(t) => t,
                    None => from,
                },
                joins: spec_joins_text(js),
            },
        ),
        None => Err(SchemaErrorView::MissingFrom),
    }
}

/// Builds the FROM part of a schema from the struct-level attribute and the
/// declared static joins.
pub fn get_table_from(attr: FromAttributes, joins: &Vec<JoinDef>) -> (r: Result<
    TableFrom,
    SchemaError,
>)
    ensures
        match r {
            Ok(tf) => spec_table_from(attr@, joins.deep_view()) == Ok::<
                TableFromView,
                SchemaErrorView,
            >(tf@),
            Err(e) => spec_table_from(attr@, joins.deep_view()) == Err::<
                TableFromView,
                SchemaErrorView,
            >(e@),
        },
{
    let from = match attr.attr {
        Some(f) => f,
        None => {
            return Err(SchemaError::MissingFrom);
        },
    };
    let table = match attr.table {
        Some(t) => t,
        None => from.clone(),
    };
    let mut joins_text = String::new();
    let mut i: usize = 0;
    while i < joins.len()
        invariant
            i <= joins.len(),
            joins_text@ == spec_joins_text(joins.deep_view().subrange(0, i as int)),
        decreases joins.len() - i,
    {
        joins_text.append(" LEFT JOIN ");
        joins_text.append(joins[i].table.as_str());
        joins_text.append(" ");
        joins_text.append(joins[i].alias.as_str());
        joins_text.append(" ON ");
        joins_text.append(joins[i].on.as_str());
        proof {
            let pre = joins.deep_view().subrange(0, i as int);
            let post = joins.deep_view().subrange(0, i + 1 as int);
            assert(post.drop_last() =~= pre);
            assert(post.last() == joins@[i as int]@);
            assert(joins_text@ =~= spec_joins_text(post));
        }
        i = i + 1;
    }
    proof {
        assert(joins.deep_view().subrange(0, joins.len() as int) =~= joins.deep_view());
    }
    Ok(TableFrom { from, table, joins: joins_text })
}

} // verus!

verus! {

/// The views of a column list, in order.
pub open spec fn spec_col_views(cs: Seq<Column>) -> Seq<ColumnView> {
    Seq::new(cs.len(), |i: int| cs[i]@)
}

fn field_name_and_overrides(rs_name: String, from: Option<FromAttributes>) -> (r: (
    String,
    Option<String>,
    Option<String>,
))
    ensures
        r.0@ == spec_field_name(
            rs_name@,
            match from {
                Some(f) => Some(f@),
                None => None,
            },
        ),
        (match from {
            Some(f) => f.table,
            None => None,
        }) == r.1,
        (match from {
            Some(f) => f.expression,
            None => None,
        }) == r.2,
{
    match from {
        None => (rs_name, None, None),
        Some(fa) => {
            let name = match fa.column {
                Some(c) => c,
                None => match fa.attr {
                    Some(a) => a,
                    None => rs_name,
                },
            };
            (name, fa.table, fa.expression)
        },
    }
}

/// The schema a whole declaration builds: the FROM part, then the field
/// scan, or the first error either reports.
pub open spec fn spec_get_db_model(
    attr: FromAttributesView,
    js: Seq<JoinDefView>,
    fs: Seq<FieldDefView>,
) -> Result<SchemaView, SchemaErrorView> {
    match spec_table_from(attr, js) {
        Ok(tf) => spec_build_schema(tf, fs),
        Err(e) => Err(e),
    }
}

/// Builds an entity's schema from its declaration: the struct-level storage
/// attribute, the static joins, and the ordered field declarations.
///
/// Exactly one field must be marked as the primary key and it must not be
/// read-only; a column drawing from a foreign table or backed by an
/// expression must be read-only. The first offence in field order is
/// reported, a missing primary key last.
#[verifier::loop_isolation(false)]
pub fn get_db_model(from_attr: FromAttributes, joins: Vec<JoinDef>, fields: Vec<FieldDef>) -> (r:
    Result<Schema, SchemaError>)
    ensures
        match r {
            Ok(s) => spec_get_db_model(from_attr@, joins.deep_view(), spec_field_views(fields@))
                == Ok::<SchemaView, SchemaErrorView>(s@),
            Err(e) => spec_get_db_model(from_attr@, joins.deep_view(), spec_field_views(fields@))
                == Err::<SchemaView, SchemaErrorView>(e@),
        },
{
    let ghost all_views = spec_field_views(fields@);
    let tf = match get_table_from(from_attr, &joins) {
        Ok(tf) => tf,
        Err(e) => {
            return Err(e);
        },
    };
    let mut fields = fields;
    let mut pk_name: Option<String> = None;
    let mut columns: Vec<Column> = Vec::new();
    let mut relations: Vec<Relation> = Vec::new();
    proof {
        assert(spec_col_views(columns@) =~= Seq::<ColumnView>::empty());
        assert(spec_rel_views(relations@) =~= Seq::<RelationView>::empty());
    }
    while fields.len() > 0
        invariant
            spec_scan(spec_scan_init(), all_views) == spec_scan(
                ScanState {
                    pk: match &pk_name {
                        Some(p) => Some(p@),
                        None => None,
                    },
                    columns: spec_col_views(columns@),
                    relations: spec_rel_views(relations@),
                },
                spec_field_views(fields@),
            ),
        decreases fields.len(),
    {
        let ghost pre_fields = fields@;
        let ghost pre_state = ScanState {
            pk: match &pk_name {
                Some(p) => Some(p@),
                None => None,
            },
            columns: spec_col_views(columns@),
            relations: spec_rel_views(relations@),
        };
        let f = fields.remove(0);
        proof {
            lemma_field_views(pre_fields);
            assert(fields@ =~= pre_fields.drop_first());
            lemma_field_views(fields@);
            assert(spec_field_views(pre_fields).drop_first() =~= spec_field_views(fields@));
            assert(spec_field_views(pre_fields)[0] == f@);
            assert(spec_scan(pre_state, spec_field_views(pre_fields)) == (match spec_scan_field(
                pre_state,
                f@,
            ) {
                Ok(st2) => spec_scan(st2, spec_field_views(fields@)),
                Err(e) => Err(e),
            }));
        }
        if f.pk {
            if pk_name.is_some() {
                return Err(SchemaError::DuplicatePrimaryKey);
            }
            if f.readonly {
                return Err(SchemaError::ReadonlyPrimaryKey);
            }
            let (name, _, _) = field_name_and_overrides(f.rs_name, f.from);
            pk_name = Some(name);
        } else {
            match f.relation {
                Some(rd) => {
                    let rel = Relation { fk: rd.attr.fk, schema: rd.schema };
                    proof {
                        let rs2 = relations@.push(rel);
                        assert(rs2.drop_last() =~= relations@);
                        assert(spec_rel_views(rs2) == spec_rel_views(relations@).push(rel@));
                    }
                    relations.push(rel);
                },
                None => {
                    let has_table = match &f.from {
                        Some(fa) => fa.table.is_some(),
                        None => false,
                    };
                    let has_expression = match &f.from {
                        Some(fa) => fa.expression.is_some(),
                        None => false,
                    };
                    if !f.readonly && has_table {
                        return Err(SchemaError::ForeignTableNotReadonly(f.rs_name));
                    }
                    if !f.readonly && has_expression {
                        return Err(SchemaError::ExpressionNotReadonly(f.rs_name));
                    }
                    let (name, table, expression) = field_name_and_overrides(f.rs_name, f.from);
                    let col = Column { name, table, expression, readonly: f.readonly };
                    proof {
                        assert(spec_col_views(columns@.push(col)) =~= spec_col_views(
                            columns@,
                        ).push(col@));
                    }
                    columns.push(col);
                },
            }
        }
    }
    proof {
        assert(spec_field_views(fields@) =~= Seq::<FieldDefView>::empty());
    }
    match pk_name {
        Some(pk) => {
            let s = Schema {
                table: tf.table,
                from: tf.from,
                joins: tf.joins,
                pk,
                columns,
                relations,
            };
            proof {
                assert(spec_col_views(s.columns@) =~= Seq::new(
                    s.columns@.len(),
                    |i: int| s.columns@[i]@,
                ));
            }
            Ok(s)
        },
        None => Err(SchemaError::MissingPrimaryKey),
    }
}

/// How many physical columns an entity's whole flattened subtree occupies:
/// the primary key, the entity's own columns, then each relation's subtree.
pub open spec fn spec_width(s: SchemaView) -> nat
    decreases s,
{
    1 + s.columns.len() + spec_width_rels(s.relations)
}

/// The summed widths of the subtrees of a relation list.
pub open spec fn spec_width_rels(rs: Seq<RelationView>) -> nat
    decreases rs,
{
    if rs.len() == 0 {
        0
    } else {
        spec_width_rels(rs.drop_last()) + spec_width(rs.last().schema)
    }
}

/// Subtree widths sum across list concatenation.
pub proof fn lemma_width_rels_concat(a: Seq<RelationView>, b: Seq<RelationView>)
    ensures
        spec_width_rels(a + b) == spec_width_rels(a) + spec_width_rels(b),
    decreases b.len(),
{
    if b.len() == 0 {
        assert(a + b =~= a);
    } else {
        assert((a + b).drop_last() =~= a + b.drop_last());
        assert((a + b).last() == b.last());
        lemma_width_rels_concat(a, b.drop_last());
    }
}

/// Computes the flattened column count of a schema's subtree.
pub fn width(s: &Schema) -> (r: usize)
    requires
        spec_width(s@) <= usize::MAX,
    ensures
        r == spec_width(s@),
    decreases *s,
{
    proof {
        lemma_rel_views(s.relations@);
        assert(s@.relations.subrange(0, 0) =~= Seq::<RelationView>::empty());
        assert(spec_width_rels(Seq::<RelationView>::empty()) == 0);
        assert(s@.relations.subrange(0, s@.relations.len() as int) =~= s@.relations);
    }
    let mut acc: usize = 1 + s.columns.len();
    let mut i: usize = 0;
    while i < s.relations.len()
        invariant
            i <= s.relations.len(),
            s@.relations.len() == s.relations@.len(),
            spec_width(s@) <= usize::MAX,
            acc == 1 + s@.columns.len() + spec_width_rels(s@.relations.subrange(0, i as int)),
            spec_width(s@) == acc + spec_width_rels(
                s@.relations.subrange(i as int, s@.relations.len() as int),
            ),
        decreases s.relations.len() - i,
    {
        proof {
            lemma_rel_views(s.relations@);
            let rs = s@.relations;
            let suffix = rs.subrange(i as int, rs.len() as int);
            assert(suffix =~= seq![rs[i as int]] + rs.subrange(i + 1 as int, rs.len() as int));
            lemma_width_rels_concat(
                seq![rs[i as int]],
                rs.subrange(i + 1 as int, rs.len() as int),
            );
            assert(seq![rs[i as int]].drop_last() =~= Seq::<RelationView>::empty());
            assert(spec_width_rels(Seq::<RelationView>::empty()) == 0);
            assert(spec_width_rels(seq![rs[i as int]]) == spec_width(rs[i as int].schema));
            assert(rs.subrange(0, i + 1 as int).drop_last() =~= rs.subrange(0, i as int));
        }
        let w = width(&s.relations[i].schema);
        acc = acc + w;
        i = i + 1;
    }
    proof {
        assert(s@.relations.subrange(0, s@.relations.len() as int) =~= s@.relations);
        assert(s@.relations.subrange(s@.relations.len() as int, s@.relations.len() as int)
            =~= Seq::<RelationView>::empty());
    }
    acc
}

} // verus!
