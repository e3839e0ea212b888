use sqlsynth::{DdlError, Table};

#[test]
fn parses_full_schema_fields() {
    let table =
        Table::init_via_sql("create table t (id number(10) primary key, name varchar(255))")
            .unwrap();
    assert_eq!(table.name, "t");
    assert_eq!(table.columns.len(), 2);
    let id = &table.columns[0];
    assert_eq!(id.name, "id");
    assert_eq!(id.column_type, "number");
    assert_eq!(id.length, Some(10));
    assert_eq!(id.decimal_places, None);
    assert!(!id.is_nullable);
    assert!(id.is_pkey);
    let name = &table.columns[1];
    assert_eq!(name.name, "name");
    assert_eq!(name.column_type, "varchar");
    assert_eq!(name.length, Some(255));
    assert!(name.is_nullable);
    assert!(!name.is_pkey);
}

#[test]
fn precision_comma_is_not_a_column_separator() {
    let table = Table::init_via_sql(
        "create table products (product_id number(10) primary key, product_name varchar(255), product_price number(10, 2))",
    )
    .unwrap();
    assert_eq!(table.columns.len(), 3);
    let price = &table.columns[2];
    assert_eq!(price.name, "product_price");
    assert_eq!(price.column_type, "number");
    assert_eq!(price.length, Some(10));
    assert_eq!(price.decimal_places, Some(2));
}

#[test]
fn name_without_space_before_paren() {
    let table = Table::init_via_sql(
        "create table orders(order_id number(10) primary key, order_date date)",
    )
    .unwrap();
    assert_eq!(table.name, "orders");
    assert_eq!(table.columns.len(), 2);
}

#[test]
fn precision_comma_with_loose_spacing() {
    let table = Table::init_via_sql("create table t (a number(10 , 2), b int)").unwrap();
    assert_eq!(table.columns.len(), 2);
    assert_eq!(table.columns[0].length, Some(10));
    assert_eq!(table.columns[0].decimal_places, Some(2));
    assert_eq!(table.columns[1].name, "b");
}

#[test]
fn input_is_lowercased_and_trimmed() {
    let table = Table::init_via_sql("  CREATE TABLE Orders (Id NUMBER(10) PRIMARY KEY)  ").unwrap();
    assert_eq!(table.name, "orders");
    assert_eq!(table.columns[0].name, "id");
    assert_eq!(table.columns[0].column_type, "number");
    assert!(table.columns[0].is_pkey);
}

#[test]
fn trailing_clauses_after_paren_are_dropped() {
    let table = Table::init_via_sql("create table t (a int, b date); ").unwrap();
    assert_eq!(table.columns.len(), 2);
    assert_eq!(table.columns[1].column_type, "date");
}

#[test]
fn references_fragment_is_parsed() {
    let table = Table::init_via_sql(
        "create table orders (customer_id number(10) references customers (customer_id))",
    )
    .unwrap();
    let col = &table.columns[0];
    assert_eq!(col.ref_table.as_deref(), Some("customers"));
    assert_eq!(col.ref_column.as_deref(), Some("customer_id"));
    let plain = Table::init_via_sql("create table t (a int)").unwrap();
    assert!(plain.columns[0].ref_table.is_none());
    assert!(plain.columns[0].ref_column.is_none());
}

#[test]
fn parse_references_scans_tokens() {
    let parts = ["customer_id", "number", "references", "customers", "(customer_id)"];
    let (t, c) = Table::parse_references(&parts);
    assert_eq!(t.as_deref(), Some("customers"));
    assert_eq!(c.as_deref(), Some("customer_id"));
    let none = ["a", "int", "primary", "key"];
    let (t2, c2) = Table::parse_references(&none);
    assert!(t2.is_none());
    assert!(c2.is_none());
    let short = ["a", "int", "references"];
    let (t3, c3) = Table::parse_references(&short);
    assert!(t3.is_none());
    assert!(c3.is_none());
}

#[test]
fn missing_prefix_is_rejected() {
    assert_eq!(
        Table::init_via_sql("drop table x").unwrap_err(),
        DdlError::MissingCreateTable
    );
    assert_eq!(Table::init_via_sql("").unwrap_err(), DdlError::MissingCreateTable);
}

#[test]
fn missing_column_list_is_rejected() {
    assert_eq!(
        Table::init_via_sql("create table foo").unwrap_err(),
        DdlError::MissingColumnList
    );
}

#[test]
fn unterminated_column_list_is_rejected() {
    assert_eq!(
        Table::init_via_sql("create table foo (id int").unwrap_err(),
        DdlError::UnterminatedColumnList
    );
}

#[test]
fn column_without_type_is_rejected() {
    assert_eq!(
        Table::init_via_sql("create table foo (id)").unwrap_err(),
        DdlError::BadColumnDef
    );
    assert_eq!(
        Table::init_via_sql("create table foo ()").unwrap_err(),
        DdlError::BadColumnDef
    );
}

#[test]
fn unrecognized_type_is_kept_verbatim() {
    let table = Table::init_via_sql("create table t (payload blob, id int)").unwrap();
    assert_eq!(table.columns[0].column_type, "blob");
    assert_eq!(table.columns[0].length, None);
    assert_eq!(table.columns[1].column_type, "int");
}

#[test]
fn overlong_width_is_dropped() {
    let table = Table::init_via_sql("create table t (a number(99999999999999999999))").unwrap();
    assert_eq!(table.columns[0].column_type, "number");
    assert_eq!(table.columns[0].length, None);
}
