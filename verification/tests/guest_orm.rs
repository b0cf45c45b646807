//! SELECT and UPDATE builders.

use omnia::guest::orm::{
    finish, BuildError, ColumnSpec, DataType, Entity, Filter, JoinKind, JoinSpec, SelectBuilder,
    UpdateBuilder,
};

fn stop() -> Entity {
    Entity {
        table: "stop".to_owned(),
        projection: vec!["stop_id".to_owned(), "name".to_owned()],
        columns: vec![],
        joins: vec![],
    }
}

fn text(value: &str) -> DataType {
    DataType::Str(Some(value.to_owned()))
}

#[test]
fn where_order_limit_compose() {
    let query = SelectBuilder::new(stop())
        .filter(Filter::eq("stop_id", DataType::Int32(Some(7))))
        .order_by_desc(None, "name")
        .limit(10)
        .build()
        .unwrap();

    assert_eq!(
        query.sql,
        r#"SELECT "stop"."stop_id", "stop"."name" FROM "stop" WHERE ("stop"."stop_id") = ($1) ORDER BY "stop"."name" DESC LIMIT $2"#
    );
    assert!(matches!(query.params[0], DataType::Int32(Some(7))));
    assert!(matches!(query.params[1], DataType::Uint64(Some(10))));
}

#[test]
fn order_by_other_table() {
    let query = SelectBuilder::new(stop()).order_by_desc(Some("zone"), "name").build().unwrap();
    assert!(query.sql.ends_with(r#"ORDER BY "zone"."name" DESC"#), "sql: {}", query.sql);
    let query = SelectBuilder::new(stop()).order_by(None, "name").offset(3).build().unwrap();
    assert!(
        query.sql.ends_with(r#"FROM "stop" ORDER BY "stop"."name" ASC OFFSET $1"#),
        "sql: {}",
        query.sql
    );
    assert_eq!(query.params, vec![DataType::Uint64(Some(3))]);
}

#[test]
fn projected_columns_stand_for_others() {
    let mut entity = stop();
    entity.columns.push(ColumnSpec {
        field: "name".to_owned(),
        table: "zone".to_owned(),
        column: "title".to_owned(),
    });
    entity.joins.push(JoinSpec {
        table: "zone".to_owned(),
        alias: None,
        left_table: "stop".to_owned(),
        left_column: "zone_id".to_owned(),
        right_table: "zone".to_owned(),
        right_column: "id".to_owned(),
        kind: JoinKind::Left,
    });
    let query = SelectBuilder::new(entity)
        .join(JoinSpec {
            table: "agency".to_owned(),
            alias: Some("a".to_owned()),
            left_table: "stop".to_owned(),
            left_column: "agency_id".to_owned(),
            right_table: "a".to_owned(),
            right_column: "id".to_owned(),
            kind: JoinKind::Inner,
        })
        .build()
        .unwrap();
    assert_eq!(
        query.sql,
        r#"SELECT "stop"."stop_id", "zone"."title" AS "name" FROM "stop" LEFT JOIN "zone" ON "stop"."zone_id" = "zone"."id" INNER JOIN "agency" AS "a" ON "stop"."agency_id" = "a"."id""#
    );
}

#[test]
fn every_data_type_binds() {
    let values = vec![
        DataType::Boolean(Some(true)),
        DataType::Int32(None),
        DataType::Int64(Some(-1)),
        DataType::Uint32(Some(4)),
        DataType::Uint64(Some(5)),
        text("x"),
        DataType::Binary(Some(vec![1, 2])),
    ];
    let mut update = UpdateBuilder::new(&stop());
    let mut select = SelectBuilder::new(stop());
    for value in [
        DataType::Boolean(Some(true)),
        DataType::Int32(None),
        DataType::Int64(Some(-1)),
        DataType::Uint32(Some(4)),
        DataType::Uint64(Some(5)),
        text("x"),
        DataType::Binary(Some(vec![1, 2])),
    ] {
        select = select.filter(Filter::eq("name", value));
    }
    assert_eq!(select.build().unwrap().params, values);
    for value in [
        DataType::Boolean(Some(true)),
        DataType::Int32(None),
        DataType::Int64(Some(-1)),
        DataType::Uint32(Some(4)),
        DataType::Uint64(Some(5)),
        text("x"),
        DataType::Binary(Some(vec![1, 2])),
    ] {
        update = update.set("name", value);
    }
    let query = update.filter(Filter::eq("stop_id", DataType::Int32(Some(7)))).build().unwrap();
    assert_eq!(query.params.len(), 8);
    assert_eq!(query.params[5], text("x"));
}

#[test]
fn set_chain_with_filter() {
    let query = UpdateBuilder::new(&stop())
        .set("name", text("Britomart"))
        .set("stop_id", DataType::Int32(Some(9)))
        .filter(Filter::eq("stop_id", DataType::Int32(Some(7))))
        .build()
        .unwrap();

    assert_eq!(
        query.sql,
        r#"UPDATE "stop" SET "name" = $1, "stop_id" = $2 WHERE ("stop"."stop_id") = ($3)"#
    );
    assert!(matches!(&query.params[0], DataType::Str(Some(s)) if s == "Britomart"));
    assert!(matches!(query.params[1], DataType::Int32(Some(9))));
    assert!(matches!(query.params[2], DataType::Int32(Some(7))));
}

#[test]
fn conditional_sets() {
    // The optional-PATCH-field pattern: absent fields add no SET clause.
    let name: Option<&str> = Some("Britomart");
    let timezone: Option<&str> = None;

    let mut update = UpdateBuilder::new(&stop());
    if let Some(name) = name {
        update = update.set("name", text(name));
    }
    if let Some(timezone) = timezone {
        update = update.set("timezone", text(timezone));
    }
    let query =
        update.filter(Filter::eq("stop_id", DataType::Int32(Some(7)))).build().unwrap();

    assert_eq!(query.sql, r#"UPDATE "stop" SET "name" = $1 WHERE ("stop"."stop_id") = ($2)"#);
    assert_eq!(query.params.len(), 2);
}

#[test]
fn missing_set_or_filter() {
    let unset = UpdateBuilder::new(&stop())
        .filter(Filter::eq("stop_id", DataType::Int32(Some(7))))
        .build();
    assert_eq!(unset, Err(BuildError::NoSet));
    let unfiltered = UpdateBuilder::new(&stop()).set("name", text("x")).build();
    assert_eq!(unfiltered, Err(BuildError::Unfiltered));
    assert_eq!(BuildError::NoSet.text(), "UPDATE has no `.set(...)` clause");
    assert_eq!(
        BuildError::Unfiltered.text(),
        "refusing to build an unfiltered UPDATE; add a `.where(...)` clause"
    );
}

#[test]
fn returned_columns_ride_last() {
    let query = UpdateBuilder::new(&stop())
        .set("name", text("x"))
        .filter(Filter::eq("stop_id", DataType::Int32(Some(7))))
        .returning("stop_id")
        .returning("name")
        .build()
        .unwrap();
    assert_eq!(
        query.sql,
        r#"UPDATE "stop" SET "name" = $1 WHERE ("stop"."stop_id") = ($2) RETURNING "stop_id", "name""#
    );
}

#[test]
fn untyped_values_are_refused() {
    let r = finish("q".to_owned(), vec![Some(DataType::Int32(None)), None]);
    assert_eq!(r, Err(BuildError::Value(1)));
    assert_eq!(BuildError::Value(1).text(), "unsupported value at 1");
}
