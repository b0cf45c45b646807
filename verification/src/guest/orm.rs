//! Query builders over an entity's table.

use crate::text::str_eq;
use sea_query::{
    Alias, ConditionalStatement, Expr, ExprTrait, IntoColumnRef, JoinType, Order as SortOrder,
    OrderedStatement, PostgresQueryBuilder, Query as SqlQuery, QueryStatementWriter,
    SelectStatement, UpdateStatement, Value as SqlValue,
};
use vstd::prelude::*;
use vstd::string::StringExecFns;

verus! {

/// A value that a query binds.
#[derive(Debug, PartialEq, Eq)]
pub enum DataType {
    Boolean(Option<bool>),
    Int32(Option<i32>),
    Int64(Option<i64>),
    Uint32(Option<u32>),
    Uint64(Option<u64>),
    Str(Option<String>),
    Binary(Option<Vec<u8>>),
}

/// What a [`DataType`] holds.
#[verifier::ext_equal]
pub enum DataModel {
    Boolean(Option<bool>),
    Int32(Option<i32>),
    Int64(Option<i64>),
    Uint32(Option<u32>),
    Uint64(Option<u64>),
    Str(Option<Seq<char>>),
    Binary(Option<Seq<u8>>),
}

impl View for DataType {
    type V = DataModel;

    open spec fn view(&self) -> DataModel {
        match self {
            DataType::Boolean(v) => DataModel::Boolean(*v),
            DataType::Int32(v) => DataModel::Int32(*v),
            DataType::Int64(v) => DataModel::Int64(*v),
            DataType::Uint32(v) => DataModel::Uint32(*v),
            DataType::Uint64(v) => DataModel::Uint64(*v),
            DataType::Str(v) => DataModel::Str(crate::text::opt_view(*v)),
            DataType::Binary(v) => DataModel::Binary(
                match v {
                    Some(bytes) => Some(bytes@),
                    None => None,
                },
            ),
        }
    }
}

/// What the values of a rendered query hold; `None` for one that has no data
/// type.
pub open spec fn value_models(values: Seq<Option<DataType>>) -> Seq<Option<DataModel>> {
    values.map_values(
        |v: Option<DataType>|
            match v {
                Some(data) => Some(data@),
                None => None::<DataModel>,
            },
    )
}

/// What bound values hold.
pub open spec fn data_models(values: Seq<DataType>) -> Seq<DataModel> {
    values.map_values(|v: DataType| v@)
}

/// How a table is joined.
#[derive(Clone, Copy, Debug, PartialEq, Eq)]
pub enum JoinKind {
    Inner,
    Left,
    Right,
    Full,
}

/// A joined table, and the columns whose values must be equal.
#[derive(Debug, PartialEq, Eq)]
pub struct JoinSpec {
    pub table: String,
    pub alias: Option<String>,
    pub left_table: String,
    pub left_column: String,
    pub right_table: String,
    pub right_column: String,
    pub kind: JoinKind,
}

/// A projected field that stands for another column.
#[derive(Debug, PartialEq, Eq)]
pub struct ColumnSpec {
    pub field: String,
    pub table: String,
    pub column: String,
}

/// An entity: its table, the fields a query projects, those of them that stand
/// for other columns, and the tables it joins.
#[derive(Debug, PartialEq, Eq)]
pub struct Entity {
    pub table: String,
    pub projection: Vec<String>,
    pub columns: Vec<ColumnSpec>,
    pub joins: Vec<JoinSpec>,
}

/// A filter on a column of the entity's table.
#[derive(Debug, PartialEq, Eq)]
pub struct Filter {
    pub column: String,
    pub value: DataType,
}

impl Filter {
    /// The rows whose column has the value.
    #[must_use]
    pub fn eq(column: &str, value: DataType) -> (r: Self)
        ensures
            r.column@ == column@,
            r.value == value,
    {
        Filter { column: String::from_str(column), value }
    }
}

/// A column to order by.
#[derive(Debug, PartialEq, Eq)]
pub struct OrderSpec {
    pub table: String,
    pub column: String,
    pub descending: bool,
}

/// A query: its SQL text and the values it binds.
#[derive(Debug, PartialEq, Eq)]
pub struct Query {
    pub sql: String,
    pub params: Vec<DataType>,
}

/// Why a query could not be built.
#[derive(Debug, PartialEq, Eq)]
pub enum BuildError {
    /// An UPDATE sets nothing.
    NoSet,
    /// An UPDATE has no filter; it would rewrite every row.
    Unfiltered,
    /// The value at the place has no data type.
    Value(usize),
}

impl BuildError {
    pub open spec fn text_spec(self) -> Seq<char> {
        match self {
            BuildError::NoSet => "UPDATE has no `.set(...)` clause"@,
            BuildError::Unfiltered => "refusing to build an unfiltered UPDATE; add a `.where(...)` clause"@,
            BuildError::Value(i) => "unsupported value at "@ + crate::text::decimal(i as nat),
        }
    }

    /// The refusal in words.
    #[must_use]
    pub fn text(&self) -> (text: String)
        ensures
            text@ == self.text_spec(),
    {
        match self {
            BuildError::NoSet => String::from_str("UPDATE has no `.set(...)` clause"),
            BuildError::Unfiltered => String::from_str(
                "refusing to build an unfiltered UPDATE; add a `.where(...)` clause",
            ),
            BuildError::Value(i) => String::from_str("unsupported value at ").concat(
                crate::text::decimal_text(*i as u64).as_str(),
            ),
        }
    }
}

/// One clause of a SELECT statement.
#[verifier::ext_equal]
pub enum SelectClause {
    Column { table: Seq<char>, column: Seq<char> },
    ColumnAs { table: Seq<char>, column: Seq<char>, alias: Seq<char> },
    From { table: Seq<char> },
    Join {
        kind: JoinKind,
        table: Seq<char>,
        alias: Option<Seq<char>>,
        left_table: Seq<char>,
        left_column: Seq<char>,
        right_table: Seq<char>,
        right_column: Seq<char>,
    },
    Where { table: Seq<char>, column: Seq<char>, value: DataModel },
    Limit(u64),
    Offset(u64),
    Order { table: Seq<char>, column: Seq<char>, descending: bool },
}

/// One clause of an UPDATE statement.
#[verifier::ext_equal]
pub enum UpdateClause {
    Table { table: Seq<char> },
    Assign { column: Seq<char>, value: DataModel },
    Where { table: Seq<char>, column: Seq<char>, value: DataModel },
    Returning { columns: Seq<Seq<char>> },
}

/// `sea_query::SelectStatement`: a SELECT statement under construction.
#[verifier::external_type_specification]
#[verifier::external_body]
pub struct ExSelectStatement(SelectStatement);

/// `sea_query::UpdateStatement`: an UPDATE statement under construction.
#[verifier::external_type_specification]
#[verifier::external_body]
pub struct ExUpdateStatement(UpdateStatement);

/// The place of a clause in a SELECT statement, by its kind.
pub open spec fn select_rank(clause: SelectClause) -> int {
    match clause {
        SelectClause::Column { .. } => 0,
        SelectClause::ColumnAs { .. } => 0,
        SelectClause::From { .. } => 1,
        SelectClause::Join { .. } => 2,
        SelectClause::Where { .. } => 3,
        SelectClause::Limit(_) => 4,
        SelectClause::Offset(_) => 5,
        SelectClause::Order { .. } => 6,
    }
}

/// Whether no clause stands behind the place `rank`.
pub open spec fn select_upto(clauses: Seq<SelectClause>, rank: int) -> bool {
    forall|i: int| 0 <= i < clauses.len() ==> select_rank(#[trigger] clauses[i]) <= rank
}

/// The place of a clause in an UPDATE statement, by its kind.
pub open spec fn update_rank(clause: UpdateClause) -> int {
    match clause {
        UpdateClause::Table { .. } => 0,
        UpdateClause::Assign { .. } => 1,
        UpdateClause::Where { .. } => 2,
        UpdateClause::Returning { .. } => 3,
    }
}

/// Whether no clause stands behind the place `rank`.
pub open spec fn update_upto(clauses: Seq<UpdateClause>, rank: int) -> bool {
    forall|i: int| 0 <= i < clauses.len() ==> update_rank(#[trigger] clauses[i]) <= rank
}

/// The clauses of a SELECT statement: its columns, its tables, its joins, its
/// conditions, its limit, its offset and its orderings, one kind behind the
/// other, and those of a kind in the order in which they were added.
pub uninterp spec fn select_clauses(statement: SelectStatement) -> Seq<SelectClause>;

/// The clauses of an UPDATE statement: its table, the columns that it sets, its
/// conditions and what it returns, one kind behind the other, and those of a
/// kind in the order in which they were added.
pub uninterp spec fn update_clauses(statement: UpdateStatement) -> Seq<UpdateClause>;

/// The SQL text that `sea_query` writes for a SELECT statement of these
/// clauses in the dialect of PostgreSQL, and the values that it binds.
pub uninterp spec fn select_rendering(clauses: Seq<SelectClause>) -> (
    Seq<char>,
    Seq<Option<DataModel>>,
);

/// The SQL text that `sea_query` writes for an UPDATE statement of these
/// clauses in the dialect of PostgreSQL, and the values that it binds.
pub uninterp spec fn update_rendering(clauses: Seq<UpdateClause>) -> (
    Seq<char>,
    Seq<Option<DataModel>>,
);

/// `sea_query::Query::select`: a statement without clauses.
#[verifier::external_body]
fn new_select() -> (r: SelectStatement)
    ensures
        select_clauses(r) == Seq::<SelectClause>::empty(),
{
    sea_query::Query::select()
}

/// `SelectStatement::column`: selects one more column.
#[verifier::external_body]
fn add_column(statement: &mut SelectStatement, table: &str, column: &str)
    requires
        select_upto(select_clauses(*old(statement)), 0),
    ensures
        select_clauses(*final(statement)) == select_clauses(*old(statement)).push(
            SelectClause::Column { table: table@, column: column@ },
        ),
{
    statement.column((Alias::new(table), Alias::new(column)));
}

/// `SelectStatement::expr_as`: selects one more column, under an alias.
#[verifier::external_body]
fn add_column_as(statement: &mut SelectStatement, table: &str, column: &str, alias: &str)
    requires
        select_upto(select_clauses(*old(statement)), 0),
    ensures
        select_clauses(*final(statement)) == select_clauses(*old(statement)).push(
            SelectClause::ColumnAs { table: table@, column: column@, alias: alias@ },
        ),
{
    let column = (Alias::new(table), Alias::new(column)).into_column_ref();
    statement.expr_as(Expr::Column(column), Alias::new(alias));
}

/// `SelectStatement::from`: selects from one more table.
#[verifier::external_body]
fn add_from(statement: &mut SelectStatement, table: &str)
    requires
        select_upto(select_clauses(*old(statement)), 1),
    ensures
        select_clauses(*final(statement)) == select_clauses(*old(statement)).push(
            SelectClause::From { table: table@ },
        ),
{
    statement.from(Alias::new(table));
}

/// `SelectStatement::join`: joins one more table on the equality of two columns.
#[verifier::external_body]
fn add_plain_join(statement: &mut SelectStatement, join: &JoinSpec)
    requires
        select_upto(select_clauses(*old(statement)), 2),
        join.alias is None,
    ensures
        select_clauses(*final(statement)) == select_clauses(*old(statement)).push(
            join_clause(*join),
        ),
{
    let left = (Alias::new(&join.left_table), Alias::new(&join.left_column));
    let right = (Alias::new(&join.right_table), Alias::new(&join.right_column));
    let on = Expr::col(left).equals(right);
    let kind = match join.kind {
        JoinKind::Inner => JoinType::InnerJoin,
        JoinKind::Left => JoinType::LeftJoin,
        JoinKind::Right => JoinType::RightJoin,
        JoinKind::Full => JoinType::FullOuterJoin,
    };
    statement.join(kind, Alias::new(&join.table), on);
}

/// `SelectStatement::join_as`: joins one more table, under an alias, on the
/// equality of two columns.
#[verifier::external_body]
fn add_join_as(statement: &mut SelectStatement, join: &JoinSpec, alias: &str)
    requires
        select_upto(select_clauses(*old(statement)), 2),
        crate::text::opt_view(join.alias) == Some(alias@),
    ensures
        select_clauses(*final(statement)) == select_clauses(*old(statement)).push(
            join_clause(*join),
        ),
{
    let left = (Alias::new(&join.left_table), Alias::new(&join.left_column));
    let right = (Alias::new(&join.right_table), Alias::new(&join.right_column));
    let on = Expr::col(left).equals(right);
    let kind = match join.kind {
        JoinKind::Inner => JoinType::InnerJoin,
        JoinKind::Left => JoinType::LeftJoin,
        JoinKind::Right => JoinType::RightJoin,
        JoinKind::Full => JoinType::FullOuterJoin,
    };
    statement.join_as(kind, Alias::new(&join.table), Alias::new(alias), on);
}

fn add_join(statement: &mut SelectStatement, join: &JoinSpec)
    requires
        select_upto(select_clauses(*old(statement)), 2),
    ensures
        select_clauses(*final(statement)) == select_clauses(*old(statement)).push(
            join_clause(*join),
        ),
{
    match &join.alias {
        Some(alias) => add_join_as(statement, join, alias.as_str()),
        None => add_plain_join(statement, join),
    }
}

/// `SelectStatement::and_where` with the equality of two one-element tuples
/// (`Expr::tuple`): one more condition, that a column has a value.
#[verifier::external_body]
fn add_where(statement: &mut SelectStatement, table: &str, column: &str, value: DataType)
    requires
        select_upto(select_clauses(*old(statement)), 3),
    ensures
        select_clauses(*final(statement)) == select_clauses(*old(statement)).push(
            SelectClause::Where { table: table@, column: column@, value: value@ },
        ),
{
    let value = match value {
        DataType::Boolean(v) => SqlValue::Bool(v),
        DataType::Int32(v) => SqlValue::Int(v),
        DataType::Int64(v) => SqlValue::BigInt(v),
        DataType::Uint32(v) => SqlValue::Unsigned(v),
        DataType::Uint64(v) => SqlValue::BigUnsigned(v),
        DataType::Str(v) => SqlValue::String(v),
        DataType::Binary(v) => SqlValue::Bytes(v),
    };
    let column = Expr::col((Alias::new(table), Alias::new(column)));
    statement.and_where(Expr::tuple([column]).eq(Expr::tuple([Expr::val(value)])));
}

/// `SelectStatement::limit`: bounds the number of rows. A second bound would
/// take the place of the first.
#[verifier::external_body]
fn set_limit(statement: &mut SelectStatement, limit: u64)
    requires
        select_upto(select_clauses(*old(statement)), 3),
    ensures
        select_clauses(*final(statement)) == select_clauses(*old(statement)).push(
            SelectClause::Limit(limit),
        ),
{
    statement.limit(limit);
}

/// `SelectStatement::offset`: skips rows. A second offset would take the place
/// of the first.
#[verifier::external_body]
fn set_offset(statement: &mut SelectStatement, offset: u64)
    requires
        select_upto(select_clauses(*old(statement)), 4),
    ensures
        select_clauses(*final(statement)) == select_clauses(*old(statement)).push(
            SelectClause::Offset(offset),
        ),
{
    statement.offset(offset);
}

/// `SelectStatement::order_by`: orders by one more column.
#[verifier::external_body]
fn add_order(statement: &mut SelectStatement, table: &str, column: &str, descending: bool)
    ensures
        select_clauses(*final(statement)) == select_clauses(*old(statement)).push(
            SelectClause::Order { table: table@, column: column@, descending },
        ),
{
    let order = if descending {
        SortOrder::Desc
    } else {
        SortOrder::Asc
    };
    statement.order_by((Alias::new(table), Alias::new(column)), order);
}

/// `SelectStatement::build` with `PostgresQueryBuilder`: the SQL text and the
/// values it binds, each as its data type if it has one.
#[verifier::external_body]
fn render_select(statement: &SelectStatement) -> (r: (String, Vec<Option<DataType>>))
    ensures
        (r.0@, value_models(r.1@)) == select_rendering(select_clauses(*statement)),
{
    let (sql, values) = statement.build(PostgresQueryBuilder);
    let convert = |value| match value {
        SqlValue::Bool(v) => Some(DataType::Boolean(v)),
        SqlValue::Int(v) => Some(DataType::Int32(v)),
        SqlValue::BigInt(v) => Some(DataType::Int64(v)),
        SqlValue::Unsigned(v) => Some(DataType::Uint32(v)),
        SqlValue::BigUnsigned(v) => Some(DataType::Uint64(v)),
        SqlValue::String(v) => Some(DataType::Str(v)),
        SqlValue::Bytes(v) => Some(DataType::Binary(v)),
        _ => None,
    };
    (sql, values.0.into_iter().map(convert).collect())
}

/// `sea_query::Query::update`: a statement without clauses.
#[verifier::external_body]
fn new_update() -> (r: UpdateStatement)
    ensures
        update_clauses(r) == Seq::<UpdateClause>::empty(),
{
    sea_query::Query::update()
}

/// `UpdateStatement::table`: the table to update. A second table would take the
/// place of the first.
#[verifier::external_body]
fn set_table(statement: &mut UpdateStatement, table: &str)
    requires
        update_clauses(*old(statement)).len() == 0,
    ensures
        update_clauses(*final(statement)) == update_clauses(*old(statement)).push(
            UpdateClause::Table { table: table@ },
        ),
{
    statement.table(Alias::new(table));
}

/// `UpdateStatement::value`: sets one more column to a value.
#[verifier::external_body]
fn add_set(statement: &mut UpdateStatement, column: &str, value: DataType)
    requires
        update_upto(update_clauses(*old(statement)), 1),
    ensures
        update_clauses(*final(statement)) == update_clauses(*old(statement)).push(
            UpdateClause::Assign { column: column@, value: value@ },
        ),
{
    let value = match value {
        DataType::Boolean(v) => SqlValue::Bool(v),
        DataType::Int32(v) => SqlValue::Int(v),
        DataType::Int64(v) => SqlValue::BigInt(v),
        DataType::Uint32(v) => SqlValue::Unsigned(v),
        DataType::Uint64(v) => SqlValue::BigUnsigned(v),
        DataType::Str(v) => SqlValue::String(v),
        DataType::Binary(v) => SqlValue::Bytes(v),
    };
    statement.value(Alias::new(column), value);
}

/// `UpdateStatement::and_where` with the equality of two one-element tuples
/// (`Expr::tuple`): one more condition, that a column has a value.
#[verifier::external_body]
fn add_update_where(statement: &mut UpdateStatement, table: &str, column: &str, value: DataType)
    requires
        update_upto(update_clauses(*old(statement)), 2),
    ensures
        update_clauses(*final(statement)) == update_clauses(*old(statement)).push(
            UpdateClause::Where { table: table@, column: column@, value: value@ },
        ),
{
    let value = match value {
        DataType::Boolean(v) => SqlValue::Bool(v),
        DataType::Int32(v) => SqlValue::Int(v),
        DataType::Int64(v) => SqlValue::BigInt(v),
        DataType::Uint32(v) => SqlValue::Unsigned(v),
        DataType::Uint64(v) => SqlValue::BigUnsigned(v),
        DataType::Str(v) => SqlValue::String(v),
        DataType::Binary(v) => SqlValue::Bytes(v),
    };
    let column = Expr::col((Alias::new(table), Alias::new(column)));
    statement.and_where(Expr::tuple([column]).eq(Expr::tuple([Expr::val(value)])));
}

/// `UpdateStatement::returning` with `Returning::columns`: returns columns of
/// the updated rows, in place of what an earlier call named.
#[verifier::external_body]
fn set_returning(statement: &mut UpdateStatement, columns: &Vec<String>)
    ensures
        update_clauses(*final(statement)) == unreturned(update_clauses(*old(statement))).push(
            UpdateClause::Returning { columns: crate::text::views(columns@) },
        ),
{
    let columns = columns.iter().map(|column| Alias::new(column.as_str()));
    statement.returning(SqlQuery::returning().columns(columns));
}

/// `UpdateStatement::build` with `PostgresQueryBuilder`: the SQL text and the
/// values it binds, each as its data type if it has one.
#[verifier::external_body]
fn render_update(statement: &UpdateStatement) -> (r: (String, Vec<Option<DataType>>))
    ensures
        (r.0@, value_models(r.1@)) == update_rendering(update_clauses(*statement)),
{
    let (sql, values) = statement.build(PostgresQueryBuilder);
    let convert = |value| match value {
        SqlValue::Bool(v) => Some(DataType::Boolean(v)),
        SqlValue::Int(v) => Some(DataType::Int32(v)),
        SqlValue::BigInt(v) => Some(DataType::Int64(v)),
        SqlValue::Unsigned(v) => Some(DataType::Uint32(v)),
        SqlValue::BigUnsigned(v) => Some(DataType::Uint64(v)),
        SqlValue::String(v) => Some(DataType::Str(v)),
        SqlValue::Bytes(v) => Some(DataType::Binary(v)),
        _ => None,
    };
    (sql, values.0.into_iter().map(convert).collect())
}

/// The clauses without those that return columns.
pub open spec fn unreturned(clauses: Seq<UpdateClause>) -> Seq<UpdateClause>
    decreases clauses.len(),
{
    if clauses.len() == 0 {
        Seq::empty()
    } else {
        let before = unreturned(clauses.drop_last());
        if clauses.last() is Returning {
            before
        } else {
            before.push(clauses.last())
        }
    }
}

proof fn lemma_unreturned(clauses: Seq<UpdateClause>)
    requires
        forall|i: int| 0 <= i < clauses.len() ==> !((#[trigger] clauses[i]) is Returning),
    ensures
        unreturned(clauses) == clauses,
    decreases clauses.len(),
{
    if clauses.len() > 0 {
        lemma_unreturned(clauses.drop_last());
        assert(clauses.drop_last().push(clauses.last()) =~= clauses);
    }
}

/// Whether a rendering can be bound: every value has a data type. If so, this
/// is what the query binds.
pub open spec fn bound(values: Seq<Option<DataModel>>, params: Seq<DataModel>) -> bool {
    &&& values.len() == params.len()
    &&& forall|i: int| 0 <= i < values.len() ==> #[trigger] values[i] == Some(params[i])
}

/// What a query is of a rendering: its text and the values it binds, or the
/// place of the first value that has no data type.
///
/// # Errors
///
/// Returns an error if a query value has no data type.
pub fn finish(sql: String, values: Vec<Option<DataType>>) -> (r: Result<Query, BuildError>)
    ensures
        finished(sql@, value_models(values@), r),
{
    let ghost models = value_models(values@);
    let ghost all = values@;
    let count = values.len();
    let mut params: Vec<DataType> = Vec::new();
    let mut i: usize = 0;
    for value in it: values
        invariant
            it.seq() == all,
            all == values@,
            models == value_models(all),
            i == it.index(),
            i <= all.len(),
            all.len() == count,
            params@.len() == i,
            forall|k: int| 0 <= k < i ==> #[trigger] models[k] == Some(params@[k]@),
    {
        match value {
            Some(data) => {
                params.push(data);
            },
            None => {
                assert(models[i as int] is None);
                return Err(BuildError::Value(i));
            },
        }
        i = i + 1;
    }
    assert(bound(models, data_models(params@)));
    Ok(Query { sql, params })
}

/// Whether a result is what a rendering comes to.
pub open spec fn finished(
    sql: Seq<char>,
    values: Seq<Option<DataModel>>,
    r: Result<Query, BuildError>,
) -> bool {
    match r {
        Ok(query) => query.sql@ == sql && bound(values, data_models(query.params@)),
        Err(BuildError::Value(i)) => i < values.len() && values[i as int] is None && forall|k: int|
            0 <= k < i ==> (#[trigger] values[k]) is Some,
        Err(_) => false,
    }
}

/// The clause of a join.
pub open spec fn join_clause(join: JoinSpec) -> SelectClause {
    SelectClause::Join {
        kind: join.kind,
        table: join.table@,
        alias: crate::text::opt_view(join.alias),
        left_table: join.left_table@,
        left_column: join.left_column@,
        right_table: join.right_table@,
        right_column: join.right_column@,
    }
}

/// The first spec for a field, from `i` on.
pub open spec fn spec_for(columns: Seq<ColumnSpec>, field: Seq<char>, i: int) -> Option<ColumnSpec>
    decreases columns.len() - i,
{
    if i < 0 || i >= columns.len() {
        None
    } else if columns[i].field@ == field {
        Some(columns[i])
    } else {
        spec_for(columns, field, i + 1)
    }
}

/// The clause that projects a field: the column that it stands for, under its
/// name, else the column of that name in the entity's table.
pub open spec fn field_clause(entity: Entity, field: Seq<char>) -> SelectClause {
    match spec_for(entity.columns@, field, 0) {
        Some(spec) => SelectClause::ColumnAs {
            table: spec.table@,
            column: spec.column@,
            alias: field,
        },
        None => SelectClause::Column { table: entity.table@, column: field },
    }
}

/// The clause of a filter in a SELECT.
pub open spec fn select_where(table: Seq<char>, filter: Filter) -> SelectClause {
    SelectClause::Where { table, column: filter.column@, value: filter.value@ }
}

/// The clause of an ordering.
pub open spec fn order_clause(order: OrderSpec) -> SelectClause {
    SelectClause::Order {
        table: order.table@,
        column: order.column@,
        descending: order.descending,
    }
}

/// Builder for constructing SELECT queries.
pub struct SelectBuilder {
    pub entity: Entity,
    pub filters: Vec<Filter>,
    pub limit: Option<u64>,
    pub offset: Option<u64>,
    pub order: Vec<OrderSpec>,
    pub joins: Vec<JoinSpec>,
}

impl SelectBuilder {
    /// The clauses up to the filters: the projection, the table, the entity's
    /// joins and then those added, and the filters.
    pub open spec fn selection(self) -> Seq<SelectClause> {
        self.entity.projection@.map_values(|field: String| field_clause(self.entity, field@)).push(
            SelectClause::From { table: self.entity.table@ },
        ) + self.entity.joins@.map_values(|join: JoinSpec| join_clause(join))
            + self.joins@.map_values(|join: JoinSpec| join_clause(join)) + self.filters@.map_values(
            |filter: Filter| select_where(self.entity.table@, filter),
        )
    }

    /// The clauses that bound the rows.
    pub open spec fn window(self) -> Seq<SelectClause> {
        (match self.limit {
            Some(n) => seq![SelectClause::Limit(n)],
            None => Seq::empty(),
        }) + (match self.offset {
            Some(n) => seq![SelectClause::Offset(n)],
            None => Seq::empty(),
        })
    }

    /// The clauses of the whole statement.
    pub open spec fn clauses(self) -> Seq<SelectClause> {
        self.selection() + self.window() + self.order@.map_values(
            |order: OrderSpec| order_clause(order),
        )
    }

    /// Creates a new SELECT query builder.
    #[must_use]
    pub fn new(entity: Entity) -> (r: Self)
        ensures
            r.entity == entity,
            r.filters@.len() == 0,
            r.limit is None,
            r.offset is None,
            r.order@.len() == 0,
            r.joins@.len() == 0,
    {
        SelectBuilder {
            entity,
            filters: Vec::new(),
            limit: None,
            offset: None,
            order: Vec::new(),
            joins: Vec::new(),
        }
    }

    /// Adds a WHERE clause filter.
    #[must_use]
    pub fn filter(self, filter: Filter) -> (r: Self)
        ensures
            r == (SelectBuilder { filters: r.filters, ..self }),
            r.filters@ == self.filters@.push(filter),
    {
        let mut filters = self.filters;
        filters.push(filter);
        SelectBuilder {
            entity: self.entity,
            filters,
            limit: self.limit,
            offset: self.offset,
            order: self.order,
            joins: self.joins,
        }
    }

    /// Sets the maximum number of rows to return.
    #[must_use]
    pub fn limit(self, limit: u64) -> (r: Self)
        ensures
            r == (SelectBuilder { limit: Some(limit), ..self }),
    {
        let mut r = self;
        r.limit = Some(limit);
        r
    }

    /// Sets the number of rows to skip.
    #[must_use]
    pub fn offset(self, offset: u64) -> (r: Self)
        ensures
            r == (SelectBuilder { offset: Some(offset), ..self }),
    {
        let mut r = self;
        r.offset = Some(offset);
        r
    }

    fn ordered(self, table: Option<&str>, column: &str, descending: bool) -> (r: Self)
        ensures
            r == (SelectBuilder { order: r.order, ..self }),
            r.order@.len() == self.order@.len() + 1,
            r.order@.drop_last() == self.order@,
            order_clause(r.order@.last()) == (SelectClause::Order {
                table: match table {
                    Some(name) => name@,
                    None => self.entity.table@,
                },
                column: column@,
                descending,
            }),
    {
        let table = match table {
            Some(table) => String::from_str(table),
            None => self.entity.table.clone(),
        };
        let mut r = self;
        r.order.push(OrderSpec { table, column: String::from_str(column), descending });
        assert(r.order@.drop_last() =~= self.order@);
        r
    }

    /// Adds ascending ORDER BY clause, of a column of the entity's table unless
    /// another is named.
    #[must_use]
    pub fn order_by(self, table: Option<&str>, column: &str) -> (r: Self)
        ensures
            r == (SelectBuilder { order: r.order, ..self }),
            r.order@.len() == self.order@.len() + 1,
            r.order@.drop_last() == self.order@,
            order_clause(r.order@.last()) == (SelectClause::Order {
                table: match table {
                    Some(name) => name@,
                    None => self.entity.table@,
                },
                column: column@,
                descending: false,
            }),
    {
        self.ordered(table, column, false)
    }

    /// Adds descending ORDER BY clause, of a column of the entity's table
    /// unless another is named.
    #[must_use]
    pub fn order_by_desc(self, table: Option<&str>, column: &str) -> (r: Self)
        ensures
            r == (SelectBuilder { order: r.order, ..self }),
            r.order@.len() == self.order@.len() + 1,
            r.order@.drop_last() == self.order@,
            order_clause(r.order@.last()) == (SelectClause::Order {
                table: match table {
                    Some(name) => name@,
                    None => self.entity.table@,
                },
                column: column@,
                descending: true,
            }),
    {
        self.ordered(table, column, true)
    }

    /// Adds a JOIN clause to the query.
    #[must_use]
    pub fn join(self, join: JoinSpec) -> (r: Self)
        ensures
            r == (SelectBuilder { joins: r.joins, ..self }),
            r.joins@ == self.joins@.push(join),
    {
        let mut r = self;
        r.joins.push(join);
        r
    }

    /// Build the SELECT query.
    ///
    /// # Errors
    ///
    /// Returns an error if a query value has no data type.
    pub fn build(self) -> (r: Result<Query, BuildError>)
        ensures
            finished(
                select_rendering(self.clauses()).0,
                select_rendering(self.clauses()).1,
                r,
            ),
    {
        let ghost me = self;
        let SelectBuilder { entity, filters, limit, offset, order, joins } = self;
        let mut statement = new_select();
        project(&mut statement, &entity);
        add_from(&mut statement, entity.table.as_str());
        add_joins(&mut statement, &entity.joins);
        add_joins(&mut statement, &joins);
        add_wheres(&mut statement, entity.table.as_str(), filters);
        assert(select_clauses(statement) =~= me.selection());
        if let Some(limit) = limit {
            set_limit(&mut statement, limit);
        }
        if let Some(offset) = offset {
            set_offset(&mut statement, offset);
        }
        assert(select_clauses(statement) =~= me.selection() + me.window());
        let mut i: usize = 0;
        let ghost head = select_clauses(statement);
        assert(order@.subrange(0, 0).map_values(|o: OrderSpec| order_clause(o)) =~= Seq::empty());
        while i < order.len()
            invariant
                i <= order@.len(),
                select_clauses(statement) == head + order@.subrange(0, i as int).map_values(
                    |o: OrderSpec| order_clause(o),
                ),
            decreases order@.len() - i,
        {
            let by = &order[i];
            add_order(&mut statement, by.table.as_str(), by.column.as_str(), by.descending);
            assert(order@.subrange(0, i + 1).map_values(|o: OrderSpec| order_clause(o))
                =~= order@.subrange(0, i as int).map_values(|o: OrderSpec| order_clause(o)).push(
                order_clause(order@[i as int]),
            ));
            i = i + 1;
        }
        assert(order@.subrange(0, order@.len() as int) =~= order@);
        assert(select_clauses(statement) =~= me.clauses());
        let (sql, values) = render_select(&statement);
        finish(sql, values)
    }
}

fn project(statement: &mut SelectStatement, entity: &Entity)
    requires
        select_upto(select_clauses(*old(statement)), 0),
    ensures
        select_upto(select_clauses(*final(statement)), 0),
        select_clauses(*final(statement)) == select_clauses(*old(statement))
            + entity.projection@.map_values(|field: String| field_clause(*entity, field@)),
{
    let ghost head = select_clauses(*statement);
    let ghost fields = entity.projection@;
    let mut i: usize = 0;
    assert(head + fields.subrange(0, 0).map_values(|f: String| field_clause(*entity, f@)) =~= head);
    while i < entity.projection.len()
        invariant
            select_upto(select_clauses(*statement), 0),
            i <= fields.len(),
            fields == entity.projection@,
            select_clauses(*statement) == head + fields.subrange(0, i as int).map_values(
                |f: String| field_clause(*entity, f@),
            ),
        decreases fields.len() - i,
    {
        let field = entity.projection[i].as_str();
        let mut k: usize = 0;
        while k < entity.columns.len() && !str_eq(entity.columns[k].field.as_str(), field)
            invariant
                k <= entity.columns@.len(),
                spec_for(entity.columns@, field@, 0) == spec_for(
                    entity.columns@,
                    field@,
                    k as int,
                ),
            decreases entity.columns@.len() - k,
        {
            k = k + 1;
        }
        if k < entity.columns.len() {
            let column = &entity.columns[k];
            add_column_as(statement, column.table.as_str(), column.column.as_str(), field);
        } else {
            add_column(statement, entity.table.as_str(), field);
        }
        assert(fields.subrange(0, i + 1).map_values(|f: String| field_clause(*entity, f@))
            =~= fields.subrange(0, i as int).map_values(
            |f: String| field_clause(*entity, f@),
        ).push(field_clause(*entity, fields[i as int]@)));
        i = i + 1;
    }
    assert(fields.subrange(0, fields.len() as int) =~= fields);
}

fn add_joins(statement: &mut SelectStatement, joins: &Vec<JoinSpec>)
    requires
        select_upto(select_clauses(*old(statement)), 2),
    ensures
        select_upto(select_clauses(*final(statement)), 2),
        select_clauses(*final(statement)) == select_clauses(*old(statement)) + joins@.map_values(
            |join: JoinSpec| join_clause(join),
        ),
{
    let ghost head = select_clauses(*statement);
    let mut i: usize = 0;
    assert(head + joins@.subrange(0, 0).map_values(|j: JoinSpec| join_clause(j)) =~= head);
    while i < joins.len()
        invariant
            select_upto(select_clauses(*statement), 2),
            i <= joins@.len(),
            select_clauses(*statement) == head + joins@.subrange(0, i as int).map_values(
                |j: JoinSpec| join_clause(j),
            ),
        decreases joins@.len() - i,
    {
        add_join(statement, &joins[i]);
        assert(joins@.subrange(0, i + 1).map_values(|j: JoinSpec| join_clause(j))
            =~= joins@.subrange(0, i as int).map_values(|j: JoinSpec| join_clause(j)).push(
            join_clause(joins@[i as int]),
        ));
        i = i + 1;
    }
    assert(joins@.subrange(0, joins@.len() as int) =~= joins@);
}

fn add_wheres(statement: &mut SelectStatement, table: &str, filters: Vec<Filter>)
    requires
        select_upto(select_clauses(*old(statement)), 3),
    ensures
        select_upto(select_clauses(*final(statement)), 3),
        select_clauses(*final(statement)) == select_clauses(*old(statement)) + filters@.map_values(
            |filter: Filter| select_where(table@, filter),
        ),
{
    let ghost head = select_clauses(*statement);
    let ghost all = filters@;
    let ghost mut i: int = 0;
    assert(head + all.subrange(0, 0).map_values(|f: Filter| select_where(table@, f)) =~= head);
    for filter in it: filters
        invariant
            select_upto(select_clauses(*statement), 3),
            it.seq() == all,
            all == filters@,
            i == it.index(),
            0 <= i <= all.len(),
            select_clauses(*statement) == head + all.subrange(0, i).map_values(
                |f: Filter| select_where(table@, f),
            ),
    {
        add_where(statement, table, filter.column.as_str(), filter.value);
        proof {
            assert(all.subrange(0, i + 1).map_values(|f: Filter| select_where(table@, f))
                =~= all.subrange(0, i).map_values(|f: Filter| select_where(table@, f)).push(
                select_where(table@, all[i]),
            ));
            i = i + 1;
        }
    }
    assert(all.subrange(0, all.len() as int) =~= all);
}

/// A column to set, and its new value.
#[derive(Debug, PartialEq, Eq)]
pub struct SetClause {
    pub column: String,
    pub value: DataType,
}

/// The clause of a set column.
pub open spec fn set_clause(set: SetClause) -> UpdateClause {
    UpdateClause::Assign { column: set.column@, value: set.value@ }
}

/// The clause of a filter in an UPDATE.
pub open spec fn update_where(table: Seq<char>, filter: Filter) -> UpdateClause {
    UpdateClause::Where { table, column: filter.column@, value: filter.value@ }
}

/// Builder for constructing UPDATE queries.
pub struct UpdateBuilder {
    pub table: String,
    pub sets: Vec<SetClause>,
    pub filters: Vec<Filter>,
    pub returning: Vec<String>,
}

impl UpdateBuilder {
    /// The clauses up to the filters.
    pub open spec fn selection(self) -> Seq<UpdateClause> {
        seq![UpdateClause::Table { table: self.table@ }] + self.sets@.map_values(
            |set: SetClause| set_clause(set),
        ) + self.filters@.map_values(|filter: Filter| update_where(self.table@, filter))
    }

    /// The clauses of the whole statement; the returned columns stand in the
    /// order in which they were named.
    pub open spec fn clauses(self) -> Seq<UpdateClause> {
        self.selection() + if self.returning@.len() == 0 {
            Seq::empty()
        } else {
            seq![UpdateClause::Returning { columns: crate::text::views(self.returning@) }]
        }
    }

    /// Creates a new UPDATE query builder.
    #[must_use]
    pub fn new(entity: &Entity) -> (r: Self)
        ensures
            r.table@ == entity.table@,
            r.sets@.len() == 0,
            r.filters@.len() == 0,
            r.returning@.len() == 0,
    {
        UpdateBuilder {
            table: entity.table.clone(),
            sets: Vec::new(),
            filters: Vec::new(),
            returning: Vec::new(),
        }
    }

    /// Sets a column to a new value.
    #[must_use]
    pub fn set(self, column: &str, value: DataType) -> (r: Self)
        ensures
            r == (UpdateBuilder { sets: r.sets, ..self }),
            r.sets@.len() == self.sets@.len() + 1,
            r.sets@.drop_last() == self.sets@,
            r.sets@.last().column@ == column@,
            r.sets@.last().value == value,
    {
        let mut r = self;
        r.sets.push(SetClause { column: String::from_str(column), value });
        assert(r.sets@.drop_last() =~= self.sets@);
        r
    }

    /// Adds a WHERE clause filter.
    #[must_use]
    pub fn filter(self, filter: Filter) -> (r: Self)
        ensures
            r == (UpdateBuilder { filters: r.filters, ..self }),
            r.filters@ == self.filters@.push(filter),
    {
        let mut r = self;
        r.filters.push(filter);
        r
    }

    /// Specifies columns to return from updated rows.
    #[must_use]
    pub fn returning(self, column: &str) -> (r: Self)
        ensures
            r == (UpdateBuilder { returning: r.returning, ..self }),
            r.returning@.len() == self.returning@.len() + 1,
            r.returning@.drop_last() == self.returning@,
            r.returning@.last()@ == column@,
    {
        let mut r = self;
        r.returning.push(String::from_str(column));
        assert(r.returning@.drop_last() =~= self.returning@);
        r
    }

    /// Build the UPDATE query.
    ///
    /// # Errors
    ///
    /// Returns an error if no `SET` clause or no `WHERE` filter was set (an
    /// unfiltered UPDATE would rewrite every row), or if a query value has no
    /// data type.
    pub fn build(self) -> (r: Result<Query, BuildError>)
        ensures
            if self.sets@.len() == 0 {
                r == Err::<Query, BuildError>(BuildError::NoSet)
            } else if self.filters@.len() == 0 {
                r == Err::<Query, BuildError>(BuildError::Unfiltered)
            } else {
                finished(
                    update_rendering(self.clauses()).0,
                    update_rendering(self.clauses()).1,
                    r,
                )
            },
    {
        if self.sets.len() == 0 {
            return Err(BuildError::NoSet);
        }
        if self.filters.len() == 0 {
            return Err(BuildError::Unfiltered);
        }
        let ghost me = self;
        let UpdateBuilder { table, sets, filters, returning } = self;
        let mut statement = new_update();
        set_table(&mut statement, table.as_str());
        add_sets(&mut statement, sets);
        add_update_wheres(&mut statement, table.as_str(), filters);
        assert(update_clauses(statement) =~= me.selection());
        proof {
            lemma_nothing_returned(me);
        }
        if returning.len() > 0 {
            set_returning(&mut statement, &returning);
        }
        assert(update_clauses(statement) =~= me.clauses());
        let (sql, values) = render_update(&statement);
        finish(sql, values)
    }
}

/// Neither a set column nor a filter returns anything.
proof fn lemma_nothing_returned(builder: UpdateBuilder)
    ensures
        unreturned(builder.selection()) == builder.selection(),
{
    let sets = builder.sets@.map_values(|set: SetClause| set_clause(set));
    let wheres = builder.filters@.map_values(|filter: Filter| update_where(builder.table@, filter));
    assert(builder.selection() =~= seq![UpdateClause::Table { table: builder.table@ }] + sets
        + wheres);
    lemma_unreturned(builder.selection());
}

fn add_sets(statement: &mut UpdateStatement, sets: Vec<SetClause>)
    requires
        update_upto(update_clauses(*old(statement)), 1),
    ensures
        update_upto(update_clauses(*final(statement)), 1),
        update_clauses(*final(statement)) == update_clauses(*old(statement)) + sets@.map_values(
            |set: SetClause| set_clause(set),
        ),
{
    let ghost head = update_clauses(*statement);
    let ghost all = sets@;
    let ghost mut i: int = 0;
    assert(head + all.subrange(0, 0).map_values(|s: SetClause| set_clause(s)) =~= head);
    for set in it: sets
        invariant
            update_upto(update_clauses(*statement), 1),
            it.seq() == all,
            all == sets@,
            i == it.index(),
            0 <= i <= all.len(),
            update_clauses(*statement) == head + all.subrange(0, i).map_values(
                |s: SetClause| set_clause(s),
            ),
    {
        add_set(statement, set.column.as_str(), set.value);
        proof {
            assert(all.subrange(0, i + 1).map_values(|s: SetClause| set_clause(s))
                =~= all.subrange(0, i).map_values(|s: SetClause| set_clause(s)).push(
                set_clause(all[i]),
            ));
            i = i + 1;
        }
    }
    assert(all.subrange(0, all.len() as int) =~= all);
}

fn add_update_wheres(statement: &mut UpdateStatement, table: &str, filters: Vec<Filter>)
    requires
        update_upto(update_clauses(*old(statement)), 2),
    ensures
        update_upto(update_clauses(*final(statement)), 2),
        update_clauses(*final(statement)) == update_clauses(*old(statement)) + filters@.map_values(
            |filter: Filter| update_where(table@, filter),
        ),
{
    let ghost head = update_clauses(*statement);
    let ghost all = filters@;
    let ghost mut i: int = 0;
    assert(head + all.subrange(0, 0).map_values(|f: Filter| update_where(table@, f)) =~= head);
    for filter in it: filters
        invariant
            update_upto(update_clauses(*statement), 2),
            it.seq() == all,
            all == filters@,
            i == it.index(),
            0 <= i <= all.len(),
            update_clauses(*statement) == head + all.subrange(0, i).map_values(
                |f: Filter| update_where(table@, f),
            ),
    {
        add_update_where(statement, table, filter.column.as_str(), filter.value);
        proof {
            assert(all.subrange(0, i + 1).map_values(|f: Filter| update_where(table@, f))
                =~= all.subrange(0, i).map_values(|f: Filter| update_where(table@, f)).push(
                update_where(table@, all[i]),
            ));
            i = i + 1;
        }
    }
    assert(all.subrange(0, all.len() as int) =~= all);
}

/// An UPDATE that is built never rewrites every row: its statement sets a
/// column and has a filter on the entity's table.
pub proof fn updates_are_filtered(builder: UpdateBuilder)
    requires
        builder.sets@.len() > 0,
        builder.filters@.len() > 0,
    ensures
        exists|i: int| 0 <= i < builder.clauses().len() && (#[trigger] builder.clauses()[i]) is Assign,
        exists|i: int|
            0 <= i < builder.clauses().len() && ((#[trigger] builder.clauses()[i]) matches
                UpdateClause::Where { table, .. } && table == builder.table@),
{
    assert(builder.clauses()[1] == set_clause(builder.sets@[0]));
    let k = 1 + builder.sets@.len() as int;
    assert(builder.clauses()[k] == update_where(builder.table@, builder.filters@[0]));
}

proof fn lemma_spec_for(columns: Seq<ColumnSpec>, field: Seq<char>, i: int)
    requires
        0 <= i <= columns.len(),
    ensures
        match spec_for(columns, field, i) {
            Some(spec) => exists|k: int|
                i <= k < columns.len() && (#[trigger] columns[k]) == spec && spec.field@ == field
                    && forall|j: int| i <= j < k ==> (#[trigger] columns[j]).field@ != field,
            None => forall|j: int|
                i <= j < columns.len() ==> (#[trigger] columns[j]).field@ != field,
        },
    decreases columns.len() - i,
{
    if i < columns.len() {
        lemma_spec_for(columns, field, i + 1);
        if columns[i].field@ == field {
            assert(i <= i < columns.len() && columns[i].field@ == field);
        } else if let Some(spec) = spec_for(columns, field, i + 1) {
            let k = choose|k: int|
                i + 1 <= k < columns.len() && (#[trigger] columns[k]) == spec && spec.field@
                    == field && forall|j: int|
                    i + 1 <= j < k ==> (#[trigger] columns[j]).field@ != field;
            assert forall|j: int| i <= j < k implies (#[trigger] columns[j]).field@ != field by {
                if j > i {
                    assert(i + 1 <= j < k);
                }
            }
            assert(i <= k < columns.len() && columns[k] == spec);
        } else {
            assert forall|j: int| i <= j < columns.len() implies (#[trigger] columns[j]).field@
                != field by {
                if j > i {
                    assert(i + 1 <= j);
                }
            }
        }
    }
}

/// How many clauses stand before those that bound the rows: the projected
/// fields, the table, the joins and the filters.
pub open spec fn before_window(b: SelectBuilder) -> int {
    1int + b.entity.projection@.len() + b.entity.joins@.len() + b.joins@.len() + b.filters@.len()
}

/// A page is bounded as asked: the statement of a builder with a limit bounds
/// the rows by that number, that of one with an offset skips that number, each
/// whether or not the other is set, and a statement has no other clause of the
/// two kinds.
pub proof fn pages_are_bounded_as_asked(b: SelectBuilder)
    ensures
        ({
            let clauses = b.clauses();
            &&& forall|n: u64|
                b.limit == Some(n) <==> #[trigger] clauses.contains(SelectClause::Limit(n))
            &&& forall|n: u64|
                b.offset == Some(n) <==> #[trigger] clauses.contains(SelectClause::Offset(n))
            &&& clauses.len() == before_window(b) + (if b.limit is Some {
                1int
            } else {
                0
            }) + (if b.offset is Some {
                1int
            } else {
                0
            }) + b.order@.len()
        }),
{
    let clauses = b.clauses();
    let at = before_window(b);
    assert(b.selection().len() == at);
    if let Some(n) = b.limit {
        assert(clauses[at] == SelectClause::Limit(n));
    }
    if let Some(n) = b.offset {
        let skip = if b.limit is Some {
            at + 1
        } else {
            at
        };
        assert(clauses[skip] == SelectClause::Offset(n));
    }
    assert forall|k: int| 0 <= k < clauses.len() && (#[trigger] clauses[k]) is Limit implies b.limit
        == Some(clauses[k]->Limit_0) by {
        lemma_window_alone(b, k);
    }
    assert forall|k: int| 0 <= k < clauses.len() && (
    #[trigger] clauses[k]) is Offset implies b.offset == Some(clauses[k]->Offset_0) by {
        lemma_window_alone(b, k);
    }
    assert forall|n: u64| b.limit == Some(n) <==> #[trigger] clauses.contains(
        SelectClause::Limit(n),
    ) by {
        if clauses.contains(SelectClause::Limit(n)) {
            let k = choose|k: int| 0 <= k < clauses.len() && clauses[k] == SelectClause::Limit(n);
            assert(clauses[k] is Limit);
        }
    }
    assert forall|n: u64| b.offset == Some(n) <==> #[trigger] clauses.contains(
        SelectClause::Offset(n),
    ) by {
        if clauses.contains(SelectClause::Offset(n)) {
            let k = choose|k: int| 0 <= k < clauses.len() && clauses[k] == SelectClause::Offset(n);
            assert(clauses[k] is Offset);
        }
    }
}

proof fn lemma_window_alone(b: SelectBuilder, k: int)
    requires
        0 <= k < b.clauses().len(),
    ensures
        b.clauses()[k] is Limit ==> b.limit == Some(b.clauses()[k]->Limit_0),
        b.clauses()[k] is Offset ==> b.offset == Some(b.clauses()[k]->Offset_0),
{
    let clause = b.clauses()[k];
    let fields = b.entity.projection@.len() as int;
    let joins = b.entity.joins@.len() as int;
    let added = b.joins@.len() as int;
    let at = before_window(b);
    if k < fields {
        assert(clause == field_clause(b.entity, b.entity.projection@[k]@));
    } else if k == fields {
        assert(clause == SelectClause::From { table: b.entity.table@ });
    } else if k < fields + 1 + joins {
        assert(clause == join_clause(b.entity.joins@[k - fields - 1]));
    } else if k < fields + 1 + joins + added {
        assert(clause == join_clause(b.joins@[k - fields - 1 - joins]));
    } else if k < at {
        assert(clause == select_where(
            b.entity.table@,
            b.filters@[k - fields - 1 - joins - added],
        ));
    } else if k < at + b.window().len() {
        assert(clause == b.window()[k - at]);
    } else {
        assert(clause == order_clause(b.order@[k - at - b.window().len()]));
    }
}

/// Paging through a query keeps all else: a builder that was given a limit and
/// then an offset has both, and selects, joins, filters and orders as before.
pub proof fn paging_keeps_the_query(
    b: SelectBuilder,
    limit: u64,
    offset: u64,
    limited: SelectBuilder,
    paged: SelectBuilder,
)
    requires
        call_ensures(SelectBuilder::limit, (b, limit), limited),
        call_ensures(SelectBuilder::offset, (limited, offset), paged),
    ensures
        paged.clauses().contains(SelectClause::Limit(limit)),
        paged.clauses().contains(SelectClause::Offset(offset)),
        paged.entity == b.entity,
        paged.joins == b.joins,
        paged.filters == b.filters,
        paged.order == b.order,
{
    pages_are_bounded_as_asked(paged);
}

/// A statement selects one column for each projected field, in order, and from
/// the entity's table: the column that the first spec for the field names,
/// under the field's name, or the table's column of that name where no spec is
/// for it.
pub proof fn every_field_is_selected(b: SelectBuilder, i: int)
    requires
        0 <= i < b.entity.projection@.len(),
    ensures
        b.clauses()[b.entity.projection@.len() as int] == (SelectClause::From {
            table: b.entity.table@,
        }),
        ({
            let field = b.entity.projection@[i]@;
            let specs = b.entity.columns@;
            ||| b.clauses()[i] == (SelectClause::Column {
                table: b.entity.table@,
                column: field,
            }) && (forall|j: int| 0 <= j < specs.len() ==> (#[trigger] specs[j]).field@ != field)
            ||| exists|k: int|
                0 <= k < specs.len() && (#[trigger] specs[k]).field@ == field && b.clauses()[i]
                    == (SelectClause::ColumnAs {
                    table: specs[k].table@,
                    column: specs[k].column@,
                    alias: field,
                }) && forall|j: int| 0 <= j < k ==> (#[trigger] specs[j]).field@ != field
        }),
{
    lemma_spec_for(b.entity.columns@, b.entity.projection@[i]@, 0);
    assert(b.clauses()[i] == field_clause(b.entity, b.entity.projection@[i]@));
}

/// A statement has the entity's joins and then those that were added, each in
/// order, on the columns and of the kind that each says.
pub proof fn every_join_is_joined(b: SelectBuilder, i: int)
    requires
        0 <= i < b.entity.joins@.len() + b.joins@.len(),
    ensures
        ({
            let join = if i < b.entity.joins@.len() {
                b.entity.joins@[i]
            } else {
                b.joins@[i - b.entity.joins@.len()]
            };
            b.clauses()[b.entity.projection@.len() + 1 + i] == (SelectClause::Join {
                kind: join.kind,
                table: join.table@,
                alias: match join.alias {
                    Some(alias) => Some(alias@),
                    None => None,
                },
                left_table: join.left_table@,
                left_column: join.left_column@,
                right_table: join.right_table@,
                right_column: join.right_column@,
            })
        }),
{
    let at = b.entity.projection@.len() + 1 + i;
    assert(b.clauses()[at] == b.selection()[at]);
    if i < b.entity.joins@.len() {
        assert(b.selection()[at] == join_clause(b.entity.joins@[i]));
    } else {
        assert(b.selection()[at] == join_clause(b.joins@[i - b.entity.joins@.len()]));
    }
}

/// A statement has every filter as a condition, on the entity's table and in
/// order.
pub proof fn every_filter_is_a_condition(b: SelectBuilder, i: int)
    requires
        0 <= i < b.filters@.len(),
    ensures
        b.clauses()[before_window(b) - b.filters@.len() + i] == (SelectClause::Where {
            table: b.entity.table@,
            column: b.filters@[i].column@,
            value: b.filters@[i].value@,
        }),
{
    let at = before_window(b) - b.filters@.len() + i;
    assert(b.clauses()[at] == b.selection()[at]);
    assert(b.selection()[at] == select_where(b.entity.table@, b.filters@[i]));
}

/// A statement ends with every ordering, in the order and the direction asked
/// for.
pub proof fn every_ordering_is_kept(b: SelectBuilder, i: int)
    requires
        0 <= i < b.order@.len(),
    ensures
        b.clauses()[b.clauses().len() - b.order@.len() + i] == (SelectClause::Order {
            table: b.order@[i].table@,
            column: b.order@[i].column@,
            descending: b.order@[i].descending,
        }),
{
    assert(b.clauses()[b.clauses().len() - b.order@.len() + i] == order_clause(b.order@[i]));
}

/// Ordering by a column orders by it last, ascending or descending as the
/// method says, in the entity's table unless another is named.
pub proof fn orderings_go_as_asked(
    b: SelectBuilder,
    table: Option<&str>,
    column: &str,
    rising: SelectBuilder,
    falling: SelectBuilder,
)
    requires
        call_ensures(SelectBuilder::order_by, (b, table, column), rising),
        call_ensures(SelectBuilder::order_by_desc, (b, table, column), falling),
    ensures
        ({
            let named = match table {
                Some(name) => name@,
                None => b.entity.table@,
            };
            &&& rising.order@.len() == b.order@.len() + 1
            &&& rising.clauses().last() == (SelectClause::Order {
                table: named,
                column: column@,
                descending: false,
            })
            &&& falling.order@.len() == b.order@.len() + 1
            &&& falling.clauses().last() == (SelectClause::Order {
                table: named,
                column: column@,
                descending: true,
            })
        }),
{
    every_ordering_is_kept(rising, rising.order@.len() - 1);
    every_ordering_is_kept(falling, falling.order@.len() - 1);
    assert(rising.clauses().len() > 0);
    assert(falling.clauses().len() > 0);
}

/// An UPDATE does what was asked and no more: it updates the builder's table,
/// sets each column to its value, in order, holds every filter, on that table,
/// and returns the columns that were named, if any were, in order.
pub proof fn updates_do_what_was_asked(b: UpdateBuilder, i: int)
    ensures
        ({
            let clauses = b.clauses();
            let sets = b.sets@.len();
            let filters = b.filters@.len();
            &&& clauses.len() == 1 + sets + filters + (if b.returning@.len() > 0 {
                1int
            } else {
                0
            })
            &&& clauses[0] == (UpdateClause::Table { table: b.table@ })
            &&& 0 <= i < sets ==> clauses[1 + i] == (UpdateClause::Assign {
                column: b.sets@[i].column@,
                value: b.sets@[i].value@,
            })
            &&& 0 <= i < filters ==> clauses[1 + sets + i] == (UpdateClause::Where {
                table: b.table@,
                column: b.filters@[i].column@,
                value: b.filters@[i].value@,
            })
            &&& b.returning@.len() > 0 ==> {
                &&& clauses.last() is Returning
                &&& clauses.last()->columns.len() == b.returning@.len()
                &&& 0 <= i < b.returning@.len() ==> clauses.last()->columns[i]
                    == b.returning@[i]@
            }
        }),
{
    let clauses = b.clauses();
    assert(b.selection().len() == 1 + b.sets@.len() + b.filters@.len());
    assert(clauses[0] == b.selection()[0]);
    if 0 <= i < b.sets@.len() {
        assert(clauses[1 + i] == set_clause(b.sets@[i]));
    }
    if 0 <= i < b.filters@.len() {
        assert(clauses[1 + b.sets@.len() + i] == update_where(b.table@, b.filters@[i]));
    }
    if b.returning@.len() > 0 {
        assert(clauses.last() == UpdateClause::Returning {
            columns: crate::text::views(b.returning@),
        });
    }
}

/// A query binds the values of its rendering, each in its place; where one has
/// no data type there is no query, and the refusal names the first such place.
pub proof fn queries_bind_their_values(
    sql: String,
    values: Vec<Option<DataType>>,
    r: Result<Query, BuildError>,
    i: int,
)
    requires
        call_ensures(finish, (sql, values), r),
    ensures
        match r {
            Ok(query) => {
                &&& query.sql@ == sql@
                &&& query.params@.len() == values@.len()
                &&& 0 <= i < values@.len() ==> values@[i] is Some && values@[i]->0@
                    == query.params@[i]@
            },
            Err(e) => e matches BuildError::Value(at) && at < values@.len() && values@[at as int]
                is None && (0 <= i < at ==> values@[i] is Some),
        },
{
    let models = value_models(values@);
    assert(models.len() == values@.len());
    if 0 <= i < values@.len() {
        assert(models[i] == match values@[i] {
            Some(data) => Some(data@),
            None => None::<DataModel>,
        });
        if let Ok(query) = r {
            assert(models[i] == Some(data_models(query.params@)[i]));
        }
    }
}

/// A new SELECT has the entity's projection, table and joins, and nothing else.
pub proof fn selects_begin_bare(entity: Entity, r: SelectBuilder)
    requires
        call_ensures(SelectBuilder::new, (entity,), r),
    ensures
        r.entity == entity,
        r.clauses().len() == entity.projection@.len() + 1 + entity.joins@.len(),
{
}

/// A filter adds one condition, behind those there were, and changes nothing
/// else.
pub proof fn filters_add_a_condition(b: SelectBuilder, filter: Filter, r: SelectBuilder)
    requires
        call_ensures(SelectBuilder::filter, (b, filter), r),
    ensures
        r.clauses().len() == b.clauses().len() + 1,
        r.filters@.drop_last() == b.filters@,
        r.clauses()[before_window(r) - 1] == (SelectClause::Where {
            table: b.entity.table@,
            column: filter.column@,
            value: filter.value@,
        }),
        r.entity == b.entity && r.joins == b.joins && r.order == b.order && r.window()
            == b.window(),
{
    assert(r.filters@.drop_last() =~= b.filters@);
    every_filter_is_a_condition(r, r.filters@.len() - 1);
}

/// A join adds one join, behind those there were, and changes nothing else.
pub proof fn joins_add_a_join(b: SelectBuilder, join: JoinSpec, r: SelectBuilder)
    requires
        call_ensures(SelectBuilder::join, (b, join), r),
    ensures
        r.clauses().len() == b.clauses().len() + 1,
        r.joins@.drop_last() == b.joins@,
        r.joins@.last() == join,
        r.entity == b.entity && r.filters == b.filters && r.order == b.order && r.window()
            == b.window(),
{
    assert(r.joins@.drop_last() =~= b.joins@);
}

/// A filter by equality is on the column and against the value it was given.
pub proof fn equality_filters_are_as_given(column: &str, value: DataType, r: Filter)
    requires
        call_ensures(Filter::eq, (column, value), r),
    ensures
        r.column@ == column@,
        r.value@ == value@,
{
}

/// An UPDATE begins with its table alone; setting a column adds an assignment,
/// a filter a condition, each behind those there were, and a returned column
/// changes neither.
pub proof fn updates_grow_as_asked(
    entity: Entity,
    column: &str,
    value: DataType,
    filter: Filter,
    bare: UpdateBuilder,
    b: UpdateBuilder,
    assigned: UpdateBuilder,
    filtered: UpdateBuilder,
    returned: UpdateBuilder,
)
    requires
        call_ensures(UpdateBuilder::new, (&entity,), bare),
        call_ensures(UpdateBuilder::set, (b, column, value), assigned),
        call_ensures(UpdateBuilder::filter, (b, filter), filtered),
        call_ensures(UpdateBuilder::returning, (b, column), returned),
    ensures
        bare.table@ == entity.table@ && bare.clauses().len() == 1,
        assigned.clauses().len() == b.clauses().len() + 1,
        assigned.clauses()[1int + b.sets@.len()] == (UpdateClause::Assign {
            column: column@,
            value: value@,
        }),
        filtered.clauses().len() == b.clauses().len() + 1,
        filtered.clauses()[1int + b.sets@.len() + b.filters@.len()] == (UpdateClause::Where {
            table: b.table@,
            column: filter.column@,
            value: filter.value@,
        }),
        returned.selection() == b.selection(),
        returned.returning@.last()@ == column@,
        returned.returning@.drop_last() == b.returning@,
{
    assert(returned.returning@.drop_last() =~= b.returning@);
}

} // verus!
